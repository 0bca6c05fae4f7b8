//! Properties that hold across the library's functions.

use vstd::prelude::*;
use crate::candidate::{
    Candidate, insert_by_score, insert_position, lemma_insert_by_score, sort_by_score,
    top_candidates, MAX_CANDIDATES,
};
use crate::ext::{decimal_digit, word_char};
use crate::normalize::{is_paren, is_sep, normalized, not_paren};
use crate::text::{ascii_lower, ascii_lowered, case_known, is_case_known, is_white};
use crate::store::{
    app_id_end, app_link_at, canonical_link, digit_pred, first_app_link, lemma_first_app_link,
    link_app_id, link_slug,
};
use crate::text::{
    back_while, in_set, lemma_back_while_bounds, lemma_skip_while_bounds, not_in, skip_while, trim,
    trim_by, white,
};

verus! {

/// Candidates ordered by descending score.
pub open spec fn sorted_desc(s: Seq<Candidate>) -> bool {
    forall|i: int, j: int| 0 <= i < j < s.len() ==> (#[trigger] s[i]).score >= (#[trigger] s[j]).score
}

/// The candidates that score `v`.
pub open spec fn scored(v: i32) -> spec_fn(Candidate) -> bool {
    |c: Candidate| c.score == v
}

proof fn lemma_insert_position_props(s: Seq<Candidate>, x: Candidate, i: int)
    requires
        0 <= i <= s.len(),
    ensures
        i <= insert_position(s, x, i) <= s.len(),
        forall|m: int| i <= m < insert_position(s, x, i) ==> (#[trigger] s[m]).score >= x.score,
        insert_position(s, x, i) < s.len() ==> s[insert_position(s, x, i)].score < x.score,
    decreases s.len() - i,
{
    if i < s.len() && s[i].score >= x.score {
        lemma_insert_position_props(s, x, i + 1);
    }
}

proof fn lemma_insert_sorted(s: Seq<Candidate>, x: Candidate)
    requires
        sorted_desc(s),
    ensures
        sorted_desc(insert_by_score(s, x)),
        forall|v: i32| #[trigger] insert_by_score(s, x).filter(scored(v)) == s.filter(scored(v)) + seq![x].filter(scored(v)),
{
    lemma_insert_by_score(s, x);
    lemma_insert_position_props(s, x, 0);
    let k = insert_position(s, x, 0);
    let t = s.insert(k, x);
    assert forall|i: int, j: int| 0 <= i < j < t.len() implies (#[trigger] t[i]).score >= (#[trigger] t[j]).score by {
        if j < k {
        } else if j == k {
        } else if i < k {
        } else if i == k {
            assert(s[k].score < x.score);
            assert(s[j - 1].score <= s[k].score);
        } else {
        }
    }
    let a = s.take(k);
    let b = s.skip(k);
    assert(t =~= a + seq![x] + b);
    assert(s =~= a + b);
    assert forall|v: i32| #[trigger] insert_by_score(s, x).filter(scored(v)) == s.filter(scored(v)) + seq![x].filter(scored(v)) by {
        Seq::filter_distributes_over_add(a + seq![x], b, scored(v));
        Seq::filter_distributes_over_add(a, seq![x], scored(v));
        Seq::filter_distributes_over_add(a, b, scored(v));
        if v == x.score {
            assert(b.all(|c: Candidate| !scored(v)(c))) by {
                assert forall|m: int| 0 <= m < b.len() implies !scored(v)(#[trigger] b[m]) by {
                    assert(b[m] == s[k + m]);
                    assert(s[k + m].score <= s[k].score);
                }
            }
            b.lemma_all_neg_filter_empty(scored(v));
            assert(b.filter(scored(v)) =~= Seq::<Candidate>::empty());
            assert(a.filter(scored(v)) + seq![x].filter(scored(v)) + b.filter(scored(v)) =~= a.filter(
                scored(v),
            ) + b.filter(scored(v)) + seq![x].filter(scored(v)));
        } else {
            Seq::<Candidate>::empty().lemma_filter_push(x, scored(v));
            assert(seq![x] =~= Seq::<Candidate>::empty().push(x));
            assert(Seq::<Candidate>::empty().filter(scored(v)) =~= Seq::<Candidate>::empty()) by {
                reveal(Seq::filter);
            }
            assert(seq![x].filter(scored(v)) =~= Seq::<Candidate>::empty());
            assert(a.filter(scored(v)) + seq![x].filter(scored(v)) + b.filter(scored(v)) =~= a.filter(
                scored(v),
            ) + b.filter(scored(v)) + seq![x].filter(scored(v)));
        }
    }
}

/// Sorting candidates by score orders them by descending score and is
/// stable: for every score, the candidates with that score come out in the
/// order they went in (so nothing is lost or added).
pub proof fn law_sort_by_score_is_stable_descending(s: Seq<Candidate>)
    ensures
        sorted_desc(sort_by_score(s)),
        forall|v: i32| #[trigger] sort_by_score(s).filter(scored(v)) == s.filter(scored(v)),
    decreases s.len(),
{
    if s.len() == 0 {
        assert(sort_by_score(s) =~= s);
    } else {
        let init = s.drop_last();
        law_sort_by_score_is_stable_descending(init);
        lemma_insert_sorted(sort_by_score(init), s.last());
        assert(s =~= init + seq![s.last()]);
        assert forall|v: i32| #[trigger] sort_by_score(s).filter(scored(v)) == s.filter(scored(v)) by {
            Seq::filter_distributes_over_add(init, seq![s.last()], scored(v));
            assert(sort_by_score(init).filter(scored(v)) == init.filter(scored(v)));
        }
    }
}

} // verus!

verus! {

proof fn lemma_sort_len(s: Seq<Candidate>)
    ensures
        sort_by_score(s).len() == s.len(),
    decreases s.len(),
{
    if s.len() > 0 {
        lemma_sort_len(s.drop_last());
        lemma_insert_by_score(sort_by_score(s.drop_last()), s.last());
    }
}

/// A merged candidate list holds at most eight candidates, ordered by
/// descending score, and the first ones of the full sorted list.
pub proof fn law_top_candidates_bounded_sorted(s: Seq<Candidate>)
    ensures
        top_candidates(s).len() == if s.len() < MAX_CANDIDATES {
            s.len()
        } else {
            MAX_CANDIDATES as nat
        },
        sorted_desc(top_candidates(s)),
        top_candidates(s) == sort_by_score(s).take(top_candidates(s).len() as int),
{
    lemma_sort_len(s);
    law_sort_by_score_is_stable_descending(s);
    let t = sort_by_score(s);
    if t.len() <= MAX_CANDIDATES {
        assert(t.take(t.len() as int) =~= t);
    }
}

/// No two candidates share a store id.
pub open spec fn distinct_ids(cs: Seq<Candidate>) -> bool {
    forall|i: int, j: int| 0 <= i < j < cs.len() ==> (#[trigger] cs[i]).app_id@ != (#[trigger] cs[j]).app_id@
}

/// Some candidate has the store id `id` and scores at least `score`.
pub open spec fn has_at_least(cs: Seq<Candidate>, id: Seq<char>, score: i32) -> bool {
    exists|k: int| 0 <= k < cs.len() && (#[trigger] cs[k]).app_id@ == id && cs[k].score >= score
}

proof fn lemma_merge_one(cs: Seq<Candidate>, c: Candidate)
    requires
        distinct_ids(cs),
    ensures
        distinct_ids(crate::candidate::merge_one(cs, c)),
        has_at_least(crate::candidate::merge_one(cs, c), c.app_id@, c.score),
        forall|id: Seq<char>, s: i32| has_at_least(cs, id, s) ==> has_at_least(crate::candidate::merge_one(cs, c), id, s),
{
    crate::candidate::lemma_find_app(cs, c.app_id@, 0);
    let m = crate::candidate::merge_one(cs, c);
    match crate::candidate::find_app(cs, c.app_id@, 0) {
        Some(i) => {
            assert(has_at_least(m, c.app_id@, c.score)) by {
                assert(m[i].app_id@ == c.app_id@);
            }
            assert forall|id: Seq<char>, s: i32| has_at_least(cs, id, s) implies has_at_least(m, id, s) by {
                let k = choose|k: int| 0 <= k < cs.len() && (#[trigger] cs[k]).app_id@ == id && cs[k].score >= s;
                assert(m[k].app_id@ == id && m[k].score >= s);
            }
        },
        None => {
            assert(m[cs.len() as int] == c);
            assert forall|id: Seq<char>, s: i32| has_at_least(cs, id, s) implies has_at_least(m, id, s) by {
                let k = choose|k: int| 0 <= k < cs.len() && (#[trigger] cs[k]).app_id@ == id && cs[k].score >= s;
                assert(m[k] == cs[k]);
            }
        },
    }
}

/// Pooling candidates by store id keeps one candidate per id, and for every
/// candidate pooled (already listed or added) one with its id that scores
/// at least as high: a better-scoring candidate is never lost.
pub proof fn law_merge_keeps_best_per_app(cs: Seq<Candidate>, news: Seq<Candidate>)
    requires
        distinct_ids(cs),
    ensures
        distinct_ids(crate::candidate::merge_all(cs, news)),
        forall|j: int| 0 <= j < news.len() ==> has_at_least(crate::candidate::merge_all(cs, news), (#[trigger] news[j]).app_id@, news[j].score),
        forall|j: int| 0 <= j < cs.len() ==> has_at_least(crate::candidate::merge_all(cs, news), (#[trigger] cs[j]).app_id@, cs[j].score),
    decreases news.len(),
{
    if news.len() == 0 {
        assert forall|j: int| 0 <= j < cs.len() implies has_at_least(cs, (#[trigger] cs[j]).app_id@, cs[j].score) by {
        }
    } else {
        let init = news.drop_last();
        law_merge_keeps_best_per_app(cs, init);
        let prev = crate::candidate::merge_all(cs, init);
        lemma_merge_one(prev, news.last());
        assert forall|j: int| 0 <= j < news.len() implies has_at_least(crate::candidate::merge_all(cs, news), (#[trigger] news[j]).app_id@, news[j].score) by {
            if j < news.len() - 1 {
                assert(news[j] == init[j]);
                assert(has_at_least(prev, init[j].app_id@, init[j].score));
            }
        }
        assert forall|j: int| 0 <= j < cs.len() implies has_at_least(crate::candidate::merge_all(cs, news), (#[trigger] cs[j]).app_id@, cs[j].score) by {
            assert(has_at_least(prev, cs[j].app_id@, cs[j].score));
        }
    }
}

} // verus!

verus! {

/// Manual confirmations and corrections take priority over automatic
/// search: once cached, a result confirmed by hand or corrected by hand is
/// reused for its name instead of searching again.
pub proof fn law_manual_results_are_reused(
    result: crate::matching::MatchResult,
    req: crate::matching::ManualRequest,
    details: Option<Seq<char>>,
)
    ensures
        !crate::matching::stale_cached(
            (crate::matching::MatchView {
                status: "已匹配"@,
                needs_review: false,
                source: "人工确认"@,
                message: seq![],
                from_cache: false,
                ..result@
            }),
        ),
        !crate::matching::stale_cached(crate::matching::corrected_view(req, details)),
{
    reveal_strlit("已匹配");
    reveal_strlit("人工确认");
    reveal_strlit("未找到");
    reveal_strlit("已推荐，需复核");
    reveal_strlit("自动推荐");
    reveal_strlit("已人工修正");
    reveal_strlit("手动粘贴");
    reveal_strlit("人工修正");
    let v = crate::matching::corrected_view(req, details);
    assert("已匹配"@[0] != "未找到"@[0]);
    assert("已匹配"@.len() != "已推荐，需复核"@.len());
    assert("人工确认"@[0] != "自动推荐"@[0]);
    assert("已人工修正"@.len() != "未找到"@.len());
    assert("已人工修正"@.len() != "已推荐，需复核"@.len());
    assert("手动粘贴"@[0] != "自动推荐"@[0]);
    assert("人工修正"@[0] != "自动推荐"@[0]);
}

/// An automatic result is reused from the cache exactly where it was
/// accepted without review: recommendations awaiting review are searched
/// again, and so is an automatic `未找到`.
pub proof fn law_automatic_results_reused_iff_accepted(
    original: Seq<char>,
    cleaned: Seq<char>,
    cands: Seq<Candidate>,
    message: Seq<char>,
)
    requires
        cands.len() > 0,
    ensures
        !crate::matching::stale_cached(crate::matching::found_view(original, cleaned, cands))
            <==> crate::matching::confident(cands),
        crate::matching::stale_cached(crate::matching::not_found_view(original, cleaned, message)),
{
    reveal_strlit("已匹配");
    reveal_strlit("未找到");
    reveal_strlit("已推荐，需复核");
    reveal_strlit("自动推荐");
    reveal_strlit("自动匹配");
    assert("已匹配"@[0] != "未找到"@[0]);
    assert("已匹配"@.len() != "已推荐，需复核"@.len());
    assert("自动匹配"@[2] != "自动推荐"@[2]);
    assert("已推荐，需复核"@.len() != "未找到"@.len());
}

/// The result recommended for a name is its best-scoring candidate, and its
/// candidates are ordered by descending score.
pub proof fn law_best_candidate_is_recommended(searches: Seq<Result<Vec<Candidate>, String>>)
    ensures
        sorted_desc(crate::matching::pooled_candidates(searches)),
        forall|k: int|
            0 <= k < crate::matching::pooled_candidates(searches).len() ==> (#[trigger] crate::matching::pooled_candidates(searches)[k]).score
                <= crate::matching::pooled_candidates(searches)[0].score,
{
    let s = crate::candidate::merge_all(seq![], crate::matching::found_candidates(searches));
    law_sort_by_score_is_stable_descending(s);
    let p = crate::matching::pooled_candidates(searches);
    assert forall|k: int| 0 <= k < p.len() implies (#[trigger] p[k]).score <= p[0].score by {
        if k > 0 {
            assert(p[0].score >= p[k].score);
        }
    }
}

/// A request delay is never above 10000 ms, and is 1500 ms where none is stored.
pub proof fn law_request_delay_bounded(stored: Option<Seq<char>>)
    ensures
        0 <= crate::settings::request_delay(stored) <= 10000,
        stored is None ==> crate::settings::request_delay(stored) == 1500,
{
    let raw = match stored {
        Some(v) => v,
        None => crate::text::decimal(1500),
    };
    if stored is None {
        reveal_with_fuel(crate::text::decimal, 5);
        reveal_with_fuel(crate::text::digits_value, 5);
        let d = crate::text::decimal(1500);
        assert(d =~= seq!['1', '5', '0', '0']);
        assert(crate::text::unsigned_digits(d) =~= d);
        assert(d.drop_last() =~= seq!['1', '5', '0']);
        assert(d.drop_last().drop_last() =~= seq!['1', '5']);
        assert(d.drop_last().drop_last().drop_last() =~= seq!['1']);
        assert(d.drop_last().drop_last().drop_last().drop_last() =~= Seq::<char>::empty());
        assert(crate::text::digits_value(d) == 1500);
    }
    match crate::text::parse_unsigned(raw, u64::MAX as int) {
        Some(v) => {
            assert(v >= 0) by {
                crate::text::lemma_parse_nonneg(raw, u64::MAX as int);
            }
        },
        None => {},
    }
}

} // verus!

verus! {

/// Every link in `ls` has a title and names the game itself, and no two
/// share an app id.
pub open spec fn game_links(ls: Seq<crate::search::LinkView>) -> bool {
    &&& forall|i: int|
        0 <= i < ls.len() ==> (#[trigger] ls[i]).title.len() > 0
            && !crate::normalize::likely_non_game(ls[i].title, ls[i].url)
    &&& forall|i: int, j: int| 0 <= i < j < ls.len() ==> (#[trigger] ls[i]).app_id != (#[trigger] ls[j]).app_id
}

proof fn lemma_collect_links_games(t: Seq<char>, hs: Seq<int>)
    ensures
        game_links(crate::search::collect_links(t, hs)),
    decreases hs.len(),
{
    if hs.len() > 0 {
        lemma_collect_links_games(t, hs.drop_last());
        let prev = crate::search::collect_links(t, hs.drop_last());
        let h = hs.last();
        if !crate::search::has_id(prev, crate::search::link_id(t, h)) {
            match crate::search::link_at(t, h) {
                Some(l) => {
                    let ls = prev.push(l);
                    assert forall|i: int, j: int| 0 <= i < j < ls.len() implies (#[trigger] ls[i]).app_id != (#[trigger] ls[j]).app_id by {
                        if j == prev.len() {
                            assert(ls[i] == prev[i]);
                        }
                    }
                },
                None => {},
            }
        }
    }
}

/// Search pages only yield store pages of games themselves: every link read
/// from a page has a title, is not a DLC, soundtrack, demo or the like, and
/// appears once per app id.
pub proof fn law_search_links_are_games(page: Seq<char>)
    ensures
        game_links(crate::search::search_links(page)),
{
    lemma_collect_links_games(page, crate::search::anchors_from(page, 0));
}

/// Query variants are non-blank, trimmed, and pairwise different once normalised.
pub open spec fn distinct_variants(vs: Seq<Seq<char>>) -> bool {
    &&& forall|i: int| 0 <= i < vs.len() ==> (#[trigger] vs[i]).len() > 0 && crate::text::trim(vs[i]) == vs[i]
    &&& forall|i: int, j: int|
        0 <= i < j < vs.len() ==> crate::normalize::normalized(#[trigger] vs[i]) != crate::normalize::normalized(#[trigger] vs[j])
}

proof fn lemma_trim_idempotent(s: Seq<char>)
    ensures
        crate::text::trim(crate::text::trim(s)) == crate::text::trim(s),
{
    let p = crate::text::white();
    let a = crate::text::skip_while(s, 0, p);
    crate::text::lemma_skip_while_bounds(s, 0, p);
    let t = s.skip(a);
    let b = crate::text::back_while(t, t.len() as int, p);
    crate::text::lemma_back_while_bounds(t, t.len() as int, p);
    let u = t.take(b);
    if u.len() > 0 {
        assert(u[0] == t[0]);
        assert(!p(u[0]));
        assert(!p(u[u.len() - 1]));
        assert(crate::text::skip_while(u, 0, p) == 0);
        assert(u.skip(0) =~= u);
        assert(crate::text::back_while(u, u.len() as int, p) == u.len());
        assert(u.take(u.len() as int) =~= u);
    } else {
        assert(crate::text::skip_while(u, 0, p) == 0);
        assert(u.skip(0) =~= u);
    }
}

/// Adding query variants keeps them non-blank, trimmed and distinct once
/// normalised; the planned queries for a name are such variants, at most two.
pub proof fn law_query_variants_distinct(values: Seq<Seq<char>>, value: Seq<char>, original: Seq<char>, cleaned: Seq<char>)
    ensures
        distinct_variants(values) ==> distinct_variants(crate::candidate::push_unique_spec(values, value)),
        distinct_variants(crate::candidate::query_variants(original, cleaned)),
        crate::candidate::query_variants(original, cleaned).len() <= 2,
{
    lemma_push_unique(values, value);
    let e: Seq<Seq<char>> = seq![];
    assert(distinct_variants(e));
    lemma_push_unique(e, cleaned);
    lemma_push_unique(crate::candidate::push_unique_spec(e, cleaned), original);
}

proof fn lemma_push_unique(values: Seq<Seq<char>>, value: Seq<char>)
    ensures
        distinct_variants(values) ==> distinct_variants(crate::candidate::push_unique_spec(values, value)),
        crate::candidate::push_unique_spec(values, value).len() <= values.len() + 1,
{
    let v = crate::text::trim(value);
    lemma_trim_idempotent(value);
    let r = crate::candidate::push_unique_spec(values, value);
    if distinct_variants(values) && v.len() > 0 && !(exists|i: int| 0 <= i < values.len() && crate::normalize::normalized(#[trigger] values[i]) == crate::normalize::normalized(v)) {
        assert(r == values.push(v));
        assert forall|i: int, j: int| 0 <= i < j < r.len() implies crate::normalize::normalized(#[trigger] r[i]) != crate::normalize::normalized(#[trigger] r[j]) by {
            if j == values.len() {
                assert(r[i] == values[i]);
            }
        }
    }
}

} // verus!

verus! {

proof fn lemma_skip_while_to(s: Seq<char>, i: int, j: int, p: spec_fn(char) -> bool)
    requires
        0 <= i <= j <= s.len(),
        forall|k: int| i <= k < j ==> p(#[trigger] s[k]),
        j == s.len() || !p(s[j]),
    ensures
        skip_while(s, i, p) == j,
    decreases j - i,
{
    if i < j {
        lemma_skip_while_to(s, i + 1, j, p);
    }
}

proof fn lemma_trim_by_unchanged(s: Seq<char>, p: spec_fn(char) -> bool)
    requires
        s.len() > 0,
        !p(s[0]),
        !p(s[s.len() - 1]),
    ensures
        trim_by(s, p) == s,
{
    assert(skip_while(s, 0, p) == 0);
    let t = s.skip(0);
    assert(t =~= s);
    assert(back_while(t, t.len() as int, p) == t.len());
    assert(t.take(t.len() as int) =~= s);
}

proof fn lemma_trim_by_one_trailing(slug: Seq<char>, p: spec_fn(char) -> bool, c: char)
    requires
        slug.len() > 0,
        !p(slug[0]),
        !p(slug[slug.len() - 1]),
        p(c),
    ensures
        trim_by(slug.push(c), p) == slug,
{
    let x = slug.push(c);
    assert(skip_while(x, 0, p) == 0);
    let t = x.skip(0);
    assert(t =~= x);
    assert(back_while(t, t.len() - 1, p) == t.len() - 1);
    assert(back_while(t, t.len() as int, p) == t.len() - 1);
    assert(t.take(t.len() - 1) =~= slug);
}

/// Facts about the app id and slug read from a link: the id is a non-empty
/// run of digits, and the slug holds no `?` or `#` and neither starts nor
/// ends with `/`.
proof fn lemma_link_parts(s: Seq<char>, p: int)
    requires
        0 <= p,
        app_link_at(s, p),
    ensures
        link_app_id(s, p).len() > 0,
        forall|k: int| 0 <= k < link_app_id(s, p).len() ==> decimal_digit(#[trigger] link_app_id(s, p)[k]),
        forall|k: int| 0 <= k < link_slug(s, p).len() ==> #[trigger] link_slug(s, p)[k] != '?' && link_slug(s, p)[k] != '#',
        link_slug(s, p).len() > 0 ==> link_slug(s, p)[0] != '/' && link_slug(s, p)[link_slug(s, p).len() - 1] != '/',
{
    let n = "store.steampowered.com/app/"@.len();
    let start = p + n;
    lemma_skip_while_bounds(s, start, digit_pred());
    let e = app_id_end(s, p);
    assert(e > start);
    let id = link_app_id(s, p);
    assert forall|k: int| 0 <= k < id.len() implies decimal_digit(#[trigger] id[k]) by {
        assert(id[k] == s[start + k]);
        assert(digit_pred()(s[start + k]));
    }
    if e < s.len() && s[e] == '/' {
        let stops = not_in(seq!['?', '#']);
        let q = skip_while(s, e + 1, stops);
        lemma_skip_while_bounds(s, e + 1, stops);
        let raw = s.subrange(e + 1, q);
        let slash = in_set(seq!['/']);
        lemma_skip_while_bounds(raw, 0, slash);
        let a = skip_while(raw, 0, slash);
        let t = raw.skip(a);
        lemma_back_while_bounds(t, t.len() as int, slash);
        let b = back_while(t, t.len() as int, slash);
        let slug = link_slug(s, p);
        assert(slug == t.take(b));
        assert forall|k: int| 0 <= k < slug.len() implies #[trigger] slug[k] != '?' && slug[k] != '#' by {
            assert(slug[k] == s[e + 1 + a + k]);
            assert(stops(s[e + 1 + a + k]));
            assert(seq!['?', '#'][0] == '?');
            assert(seq!['?', '#'][1] == '#');
        }
        if slug.len() > 0 {
            assert(slug[0] == raw[a]);
            assert(!slash(raw[a]));
            assert(seq!['/'][0] == '/');
            assert(slug[slug.len() - 1] == t[b - 1]);
            assert(!slash(t[b - 1]));
        }
    }
}

/// A canonical store link reads back as itself: normalising the link that
/// normalising a pasted link gave finds the same app id and gives the same
/// link again.
pub proof fn law_canonical_link_is_stable(url: Seq<char>)
    requires
        first_app_link(trim(url), 0) is Some,
    ensures
        ({
            let s = trim(url);
            let p = first_app_link(s, 0)->0;
            let id = link_app_id(s, p);
            let link = canonical_link(id, link_slug(s, p));
            let s2 = trim(link);
            first_app_link(s2, 0) matches Some(p2) && link_app_id(s2, p2) == id
                && canonical_link(link_app_id(s2, p2), link_slug(s2, p2)) == link
        }),
{
    let s = trim(url);
    let p = first_app_link(s, 0)->0;
    lemma_first_app_link(s, 0);
    lemma_link_parts(s, p);
    let id = link_app_id(s, p);
    let slug = link_slug(s, p);
    let link = canonical_link(id, slug);
    let head = "https://store.steampowered.com/app/"@;
    let lit = "store.steampowered.com/app/"@;
    reveal_strlit("https://store.steampowered.com/app/");
    reveal_strlit("store.steampowered.com/app/");
    assert(head.len() == 35);
    assert(lit.len() == 27);
    let n = id.len() as int;
    assert(link.len() > 35 + n);
    assert forall|k: int| 0 <= k < 35 implies #[trigger] link[k] == head[k] by {}
    assert forall|k: int| 0 <= k < n implies #[trigger] link[35 + k] == id[k] by {}
    assert(link[35 + n] == '/');
    assert(link[link.len() - 1] == '/');
    // The link needs no trimming.
    lemma_trim_by_unchanged(link, white());
    assert(trim(link) == link);
    // The first app link in it starts right after `https://`.
    assert(link.subrange(8, 35) =~= lit);
    assert(app_link_at(link, 8));
    assert(!app_link_at(link, 0)) by { assert(link[0] == 'h'); assert(lit[0] == 's'); assert(link.subrange(0, 27)[0] == link[0]); }
    assert(!app_link_at(link, 1)) by { assert(link.subrange(1, 28)[0] == link[1]); }
    assert(!app_link_at(link, 2)) by { assert(link.subrange(2, 29)[0] == link[2]); }
    assert(!app_link_at(link, 3)) by { assert(link.subrange(3, 30)[0] == link[3]); }
    assert(!app_link_at(link, 4)) by { assert(link.subrange(4, 31)[1] == link[5]); assert(lit[1] == 't'); }
    assert(!app_link_at(link, 5)) by { assert(link.subrange(5, 32)[0] == link[5]); }
    assert(!app_link_at(link, 6)) by { assert(link.subrange(6, 33)[0] == link[6]); }
    assert(!app_link_at(link, 7)) by { assert(link.subrange(7, 34)[0] == link[7]); }
    assert(first_app_link(link, 8) == Some(8int));
    assert(first_app_link(link, 7) == Some(8int));
    assert(first_app_link(link, 6) == Some(8int));
    assert(first_app_link(link, 5) == Some(8int));
    assert(first_app_link(link, 4) == Some(8int));
    assert(first_app_link(link, 3) == Some(8int));
    assert(first_app_link(link, 2) == Some(8int));
    assert(first_app_link(link, 1) == Some(8int));
    assert(first_app_link(link, 0) == Some(8int));
    // The id reads back.
    assert(!decimal_digit('/'));
    lemma_skip_while_to(link, 35, 35 + n, digit_pred());
    assert(app_id_end(link, 8) == 35 + n);
    assert(link_app_id(link, 8) =~= id);
    // The slug reads back.
    let stops = not_in(seq!['?', '#']);
    assert(seq!['?', '#'][0] == '?');
    assert(seq!['?', '#'][1] == '#');
    assert(seq!['/'][0] == '/');
    if slug.len() == 0 {
        assert(link.len() == 36 + n);
        assert(skip_while(link, 36 + n, stops) == 36 + n);
        assert(link.subrange(36 + n, 36 + n) =~= Seq::<char>::empty());
        assert(trim_by(Seq::<char>::empty(), in_set(seq!['/'])) =~= Seq::<char>::empty());
        assert(link_slug(link, 8) =~= slug);
    } else {
        let m = slug.len() as int;
        assert(link.len() == 37 + n + m);
        assert forall|k: int| 0 <= k < m implies #[trigger] link[36 + n + k] == slug[k] by {}
        assert forall|k: int| 36 + n <= k < link.len() implies stops(#[trigger] link[k]) by {
            if k < 36 + n + m {
                assert(link[k] == slug[k - 36 - n]);
            }
        }
        lemma_skip_while_to(link, 36 + n, link.len() as int, stops);
        assert(link.subrange(36 + n, link.len() as int) =~= slug.push('/'));
        lemma_trim_by_one_trailing(slug, in_set(seq!['/']), '/');
        assert(link_slug(link, 8) =~= slug);
    }
}

} // verus!

verus! {

/// A request delay written to the settings reads back as the same delay,
/// kept within `0..=10000`: reading the text stored for `ms` gives
/// `clamped_delay(ms)`.
pub proof fn law_request_delay_round_trip(ms: u64)
    ensures
        crate::settings::request_delay(
            Some(crate::text::decimal(crate::settings::clamped_delay(ms as int) as nat)),
        ) == crate::settings::clamped_delay(ms as int),
{
    let c = crate::settings::clamped_delay(ms as int);
    crate::text::lemma_parse_decimal(c as nat, u64::MAX as int);
}

} // verus!

verus! {

/// What lowercasing an ASCII letter leaves alone: the character classes that
/// cleaning and normalising look at.
proof fn lemma_lower_char(c: char)
    ensures
        ascii_lower(ascii_lower(c)) == ascii_lower(c),
        case_known(ascii_lower(c)) == case_known(c),
        (c as int) >= 0x80 ==> ascii_lower(c) == c,
        word_char(ascii_lower(c)) == word_char(c),
        decimal_digit(ascii_lower(c)) == decimal_digit(c),
        is_white(ascii_lower(c)) == is_white(c),
        is_sep(ascii_lower(c)) == is_sep(c),
        is_paren(ascii_lower(c)) == is_paren(c),
        (ascii_lower(c) == '(') == (c == '('),
        (ascii_lower(c) == ')') == (c == ')'),
        (ascii_lower(c) == '2') == (c == '2'),
        (ascii_lower(c) == '0') == (c == '0'),
        ('a' <= ascii_lower(c) && ascii_lower(c) <= 'z') ==> ('a' <= c && c <= 'z') || ('A' <= c && c <= 'Z'),
        !('a' <= ascii_lower(c) && ascii_lower(c) <= 'z') ==> ascii_lower(c) == c,
{
    if 'A' <= c && c <= 'Z' {
        assert(((c as int + 32) as char) as int == c as int + 32);
    }
}

proof fn lemma_skip_lower(s: Seq<char>, i: int, p: spec_fn(char) -> bool)
    requires
        forall|c: char| #[trigger] p(ascii_lower(c)) == p(c),
    ensures
        skip_while(ascii_lowered(s), i, p) == skip_while(s, i, p),
    decreases s.len() - i,
{
    if 0 <= i < s.len() {
        assert(ascii_lowered(s)[i] == ascii_lower(s[i]));
        assert(p(ascii_lower(s[i])) == p(s[i]));
        lemma_skip_lower(s, i + 1, p);
    }
}

proof fn lemma_back_lower(s: Seq<char>, j: int, p: spec_fn(char) -> bool)
    requires
        forall|c: char| #[trigger] p(ascii_lower(c)) == p(c),
    ensures
        back_while(ascii_lowered(s), j, p) == back_while(s, j, p),
    decreases j,
{
    if 0 < j <= s.len() {
        assert(ascii_lowered(s)[j - 1] == ascii_lower(s[j - 1]));
        assert(p(ascii_lower(s[j - 1])) == p(s[j - 1]));
        lemma_back_lower(s, j - 1, p);
    }
}

proof fn lemma_trim_by_lower(s: Seq<char>, p: spec_fn(char) -> bool)
    requires
        forall|c: char| #[trigger] p(ascii_lower(c)) == p(c),
    ensures
        trim_by(ascii_lowered(s), p) == ascii_lowered(trim_by(s, p)),
{
    lemma_skip_lower(s, 0, p);
    let a = skip_while(s, 0, p);
    lemma_skip_while_bounds(s, 0, p);
    let t = s.skip(a);
    assert(ascii_lowered(s).skip(a) =~= ascii_lowered(t));
    lemma_back_lower(t, t.len() as int, p);
    let b = back_while(t, t.len() as int, p);
    lemma_back_while_bounds(t, t.len() as int, p);
    assert(ascii_lowered(t).take(b) =~= ascii_lowered(t.take(b)));
}

proof fn lemma_ascii_subrange(s: Seq<char>, i: int, j: int)
    requires
        is_case_known(s),
        0 <= i <= j <= s.len(),
    ensures
        is_case_known(s.subrange(i, j)),
{
    assert forall|k: int| 0 <= k < j - i implies case_known(#[trigger] s.subrange(i, j)[k]) by {
        assert(s.subrange(i, j)[k] == s[i + k]);
    }
}

proof fn lemma_ascii_trim_by(s: Seq<char>, p: spec_fn(char) -> bool)
    requires
        is_case_known(s),
    ensures
        is_case_known(trim_by(s, p)),
{
    lemma_skip_while_bounds(s, 0, p);
    let a = skip_while(s, 0, p);
    let t = s.skip(a);
    assert(t =~= s.subrange(a, s.len() as int));
    lemma_ascii_subrange(s, a, s.len() as int);
    lemma_back_while_bounds(t, t.len() as int, p);
    let b = back_while(t, t.len() as int, p);
    assert(t.take(b) =~= t.subrange(0, b));
    lemma_ascii_subrange(t, 0, b);
}

proof fn lemma_ascii_lowered(s: Seq<char>)
    ensures
        is_case_known(s) ==> is_case_known(ascii_lowered(s)),
        is_case_known(s) ==> ascii_lowered(ascii_lowered(s)) == ascii_lowered(s),
        ascii_lowered(s).len() == s.len(),
{
    if is_case_known(s) {
        assert forall|k: int| 0 <= k < s.len() implies case_known(#[trigger] ascii_lowered(s)[k]) by {
            lemma_lower_char(s[k]);
        }
        assert forall|k: int| 0 <= k < s.len() implies #[trigger] ascii_lowered(ascii_lowered(s))[k] == ascii_lowered(s)[k] by {
            lemma_lower_char(s[k]);
        }
        assert(ascii_lowered(ascii_lowered(s)) =~= ascii_lowered(s));
    }
}

proof fn lemma_white_lower()
    ensures
        forall|c: char| #[trigger] white()(ascii_lower(c)) == white()(c),
        forall|c: char| #[trigger] not_paren()(ascii_lower(c)) == not_paren()(c),
{
    assert forall|c: char| #[trigger] white()(ascii_lower(c)) == white()(c) by {
        lemma_lower_char(c);
    }
    assert forall|c: char| #[trigger] not_paren()(ascii_lower(c)) == not_paren()(c) by {
        lemma_lower_char(c);
    }
}

/// Trimming, then lowercasing ASCII letters, is lowercasing them, then trimming.
proof fn lemma_trim_lower(s: Seq<char>)
    ensures
        trim(ascii_lowered(s)) == ascii_lowered(trim(s)),
        is_case_known(s) ==> is_case_known(trim(s)),
{
    lemma_white_lower();
    lemma_trim_by_lower(s, white());
    if is_case_known(s) {
        lemma_ascii_trim_by(s, white());
    }
}

/// The comparison form of a name whose characters have a stated lowercase
/// form does not depend on the case of its ASCII letters.
proof fn lemma_normalized_lower(x: Seq<char>)
    requires
        is_case_known(x),
    ensures
        normalized(ascii_lowered(x)) == normalized(x),
{
    lemma_trim_lower(x);
    let t = trim(x);
    lemma_ascii_lowered(t);
}

} // verus!

verus! {

proof fn lemma_lower_concat(a: Seq<char>, b: Seq<char>)
    ensures
        ascii_lowered(a + b) == ascii_lowered(a) + ascii_lowered(b),
        is_case_known(a) && is_case_known(b) ==> is_case_known(a + b),
{
    assert(ascii_lowered(a + b) =~= ascii_lowered(a) + ascii_lowered(b));
    if is_case_known(a) && is_case_known(b) {
        assert forall|k: int| 0 <= k < (a + b).len() implies case_known(#[trigger] (a + b)[k]) by {
            if k < a.len() {
                assert((a + b)[k] == a[k]);
            } else {
                assert((a + b)[k] == b[k - a.len()]);
            }
        }
    }
}

proof fn lemma_lower_subrange(s: Seq<char>, i: int, j: int)
    requires
        0 <= i <= j <= s.len(),
    ensures
        ascii_lowered(s).subrange(i, j) == ascii_lowered(s.subrange(i, j)),
{
    assert(ascii_lowered(s).subrange(i, j) =~= ascii_lowered(s.subrange(i, j)));
}

/// Collapsing whitespace commutes with lowercasing ASCII letters and keeps
/// every character's lowercase form stated.
proof fn lemma_collapse_lower(s: Seq<char>, i: int)
    requires
        0 <= i,
    ensures
        crate::text::collapse_from(ascii_lowered(s), i) == ascii_lowered(crate::text::collapse_from(s, i)),
        is_case_known(s) ==> is_case_known(crate::text::collapse_from(s, i)),
    decreases s.len() - i,
{
    if i < s.len() {
        lemma_lower_char(s[i]);
        assert(ascii_lowered(s)[i] == ascii_lower(s[i]));
        if is_white(s[i]) {
            lemma_white_lower();
            lemma_skip_lower(s, i + 1, white());
            lemma_skip_while_bounds(s, i + 1, white());
            let k = skip_while(s, i + 1, white());
            lemma_collapse_lower(s, k);
            lemma_lower_concat(seq![' '], crate::text::collapse_from(s, k));
            assert(ascii_lowered(seq![' ']) =~= seq![' ']);
            assert(is_case_known(seq![' ']));
        } else {
            lemma_collapse_lower(s, i + 1);
            lemma_lower_concat(seq![s[i]], crate::text::collapse_from(s, i + 1));
            assert(ascii_lowered(seq![s[i]]) =~= seq![ascii_lower(s[i])]);
            assert(is_case_known(s) ==> is_case_known(seq![s[i]]));
        }
    }
}

proof fn lemma_close_lower(s: Seq<char>, p: int)
    ensures
        crate::normalize::bracket_close(ascii_lowered(s), p) == crate::normalize::bracket_close(s, p),
{
    let l = ascii_lowered(s);
    assert(l.len() == s.len());
    if 0 <= p < s.len() {
        lemma_lower_char(s[p]);
        assert(l[p] == ascii_lower(s[p]));
        assert((l[p] == '(') == (s[p] == '('));
        lemma_white_lower();
        lemma_skip_lower(s, p + 1, not_paren());
        let j = skip_while(s, p + 1, not_paren());
        lemma_skip_while_bounds(s, p + 1, not_paren());
        assert(skip_while(l, p + 1, not_paren()) == j);
        if 0 <= j < s.len() {
            lemma_lower_char(s[j]);
            assert(l[j] == ascii_lower(s[j]));
            assert((l[j] == ')') == (s[j] == ')'));
        }
        if s[p] == '(' && j < s.len() && s[j] == ')' {
            assert(crate::normalize::bracket_close(s, p) == Some(j));
            assert(l[p] == '(');
            assert(0 <= p < l.len());
            assert(l[j] == ')');
            assert(j < l.len());
            assert(crate::normalize::bracket_close(l, p) == Some(j));
        } else {
            assert(crate::normalize::bracket_close(s, p) is None);
            assert(crate::normalize::bracket_close(l, p) is None);
        }
    }
}

/// A note in parentheses is metadata or not whatever the case of its ASCII letters.
proof fn lemma_metadata_lower(x: Seq<char>)
    requires
        is_case_known(x),
    ensures
        crate::normalize::is_metadata(ascii_lowered(x)) == crate::normalize::is_metadata(x),
{
    lemma_normalized_lower(x);
}

proof fn lemma_pass_lower(s: Seq<char>, p: int)
    requires
        is_case_known(s),
        0 <= p,
    ensures
        crate::normalize::bracket_pass_from(ascii_lowered(s), p) == ascii_lowered(
            crate::normalize::bracket_pass_from(s, p),
        ),
        is_case_known(crate::normalize::bracket_pass_from(s, p)),
    decreases s.len() - p,
{
    if p < s.len() {
        lemma_close_lower(s, p);
        crate::normalize::lemma_bracket_close(s, p);
        assert(ascii_lowered(s).len() == s.len());
        match crate::normalize::bracket_close(s, p) {
            Some(j) => {
                lemma_pass_lower(s, j + 1);
                let rest = crate::normalize::bracket_pass_from(s, j + 1);
                lemma_lower_subrange(s, p + 1, j);
                lemma_ascii_subrange(s, p + 1, j);
                lemma_metadata_lower(s.subrange(p + 1, j));
                lemma_lower_subrange(s, p, j + 1);
                lemma_ascii_subrange(s, p, j + 1);
                if crate::normalize::is_metadata(s.subrange(p + 1, j)) {
                    lemma_lower_concat(seq![], rest);
                    assert(ascii_lowered(seq![]) =~= Seq::<char>::empty());
                    assert(Seq::<char>::empty() + rest =~= rest);
                    assert(Seq::<char>::empty() + ascii_lowered(rest) =~= ascii_lowered(rest));
                } else {
                    lemma_lower_concat(s.subrange(p, j + 1), rest);
                }
            },
            None => {
                lemma_pass_lower(s, p + 1);
                assert(ascii_lowered(s)[p] == ascii_lower(s[p]));
                lemma_lower_concat(seq![s[p]], crate::normalize::bracket_pass_from(s, p + 1));
                assert(ascii_lowered(seq![s[p]]) =~= seq![ascii_lower(s[p])]);
                assert(is_case_known(seq![s[p]]));
            },
        }
    } else {
        assert(is_case_known(Seq::<char>::empty()));
        assert(ascii_lowered(Seq::<char>::empty()) =~= Seq::<char>::empty());
    }
}

proof fn lemma_fix_lower(s: Seq<char>)
    requires
        is_case_known(s),
    ensures
        crate::normalize::bracket_fix(ascii_lowered(s)) == ascii_lowered(crate::normalize::bracket_fix(s)),
        is_case_known(crate::normalize::bracket_fix(s)),
    decreases s.len(),
{
    let t = crate::normalize::bracket_pass_from(s, 0);
    lemma_pass_lower(s, 0);
    crate::normalize::lemma_bracket_pass_len(s, 0);
    lemma_ascii_lowered(s);
    lemma_ascii_lowered(t);
    assert(s.skip(0) =~= s);
    if t == s {
    } else {
        assert(t.len() < s.len());
        assert(ascii_lowered(t).len() != ascii_lowered(s).len());
        lemma_fix_lower(t);
    }
}

} // verus!

verus! {

/// A word without ASCII letters occurs in a text exactly where it occurs in
/// the text's lowercased form.
proof fn lemma_occurs_lower(s: Seq<char>, k: int, w: Seq<char>)
    requires
        forall|j: int| 0 <= j < w.len() ==> !('a' <= #[trigger] w[j] && w[j] <= 'z') && !('A' <= w[j] && w[j] <= 'Z'),
    ensures
        crate::text::occurs_at(ascii_lowered(s), k, w) == crate::text::occurs_at(s, k, w),
{
    let l = ascii_lowered(s);
    assert(l.len() == s.len());
    if 0 <= k && k + w.len() <= s.len() {
        let x = s.subrange(k, k + w.len());
        let lx = l.subrange(k, k + w.len());
        if x == w {
            assert forall|j: int| 0 <= j < w.len() implies #[trigger] lx[j] == w[j] by {
                assert(lx[j] == ascii_lower(x[j]));
            }
            assert(lx =~= w);
        }
        if lx == w {
            assert forall|j: int| 0 <= j < w.len() implies #[trigger] x[j] == w[j] by {
                assert(lx[j] == ascii_lower(x[j]));
                lemma_lower_char(x[j]);
            }
            assert(x =~= w);
        }
    }
}

proof fn lemma_expiry_lower(s: Seq<char>, k: int)
    ensures
        crate::normalize::expiry_end(ascii_lowered(s), k) == crate::normalize::expiry_end(s, k),
{
    reveal_strlit("到期");
    reveal_strlit("截止");
    reveal_strlit("过期");
    lemma_occurs_lower(s, k, "到期"@);
    lemma_occurs_lower(s, k, "截止"@);
    lemma_occurs_lower(s, k, "过期"@);
}

/// The character tests of the date pattern read a text and its lowercased
/// form alike.
proof fn lemma_date_tests_lower(s: Seq<char>)
    ensures
        forall|k: int| #[trigger] crate::normalize::word_at(ascii_lowered(s), k) == crate::normalize::word_at(s, k),
        forall|k: int| #[trigger] crate::normalize::digit_at(ascii_lowered(s), k) == crate::normalize::digit_at(s, k),
        forall|k: int|
            0 <= k < s.len() ==> (is_sep(#[trigger] ascii_lowered(s)[k]) == is_sep(s[k]) && (
            ascii_lowered(s)[k] == '2') == (s[k] == '2') && (ascii_lowered(s)[k] == '0') == (s[k]
            == '0')),
{
    assert forall|k: int| #[trigger] crate::normalize::word_at(ascii_lowered(s), k) == crate::normalize::word_at(s, k) by {
        if 0 <= k < s.len() {
            lemma_lower_char(s[k]);
        }
    }
    assert forall|k: int| #[trigger] crate::normalize::digit_at(ascii_lowered(s), k) == crate::normalize::digit_at(s, k) by {
        if 0 <= k < s.len() {
            lemma_lower_char(s[k]);
        }
    }
    assert forall|k: int|
        0 <= k < s.len() implies (is_sep(#[trigger] ascii_lowered(s)[k]) == is_sep(s[k]) && (
        ascii_lowered(s)[k] == '2') == (s[k] == '2') && (ascii_lowered(s)[k] == '0') == (s[k]
        == '0')) by {
        lemma_lower_char(s[k]);
    }
}

proof fn lemma_date_end_lower(s: Seq<char>, i: int)
    requires
        is_case_known(s),
    ensures
        crate::normalize::date_match_end(ascii_lowered(s), i) == crate::normalize::date_match_end(s, i),
{
    let l = ascii_lowered(s);
    lemma_date_tests_lower(s);
    lemma_ascii_lowered(s);
    assert(l.len() == s.len());
    assert(crate::normalize::word_boundary(l, i) == crate::normalize::word_boundary(s, i));
    assert(crate::normalize::date_head(l, i) == crate::normalize::date_head(s, i));
    if crate::normalize::date_head(s, i) {
        let m = crate::normalize::month_end(s, i);
        assert(crate::normalize::month_end(l, i) == m);
        let d = crate::normalize::day_end(s, m);
        assert(crate::normalize::day_end(l, m) == d);
        lemma_white_lower();
        lemma_skip_lower(s, d, white());
        let w = skip_while(s, d, white());
        lemma_expiry_lower(s, w);
    }
}

proof fn lemma_strip_lower(s: Seq<char>, p: int)
    requires
        is_case_known(s),
    ensures
        crate::normalize::strip_dates_from(ascii_lowered(s), p) == ascii_lowered(
            crate::normalize::strip_dates_from(s, p),
        ),
        is_case_known(crate::normalize::strip_dates_from(s, p)),
    decreases s.len() - p,
{
    assert(ascii_lowered(s).len() == s.len());
    if 0 <= p < s.len() {
        lemma_date_end_lower(s, p);
        crate::normalize::lemma_date_match_end(s, p);
        match crate::normalize::date_match_end(s, p) {
            Some(e) => {
                lemma_strip_lower(s, e);
            },
            None => {
                lemma_strip_lower(s, p + 1);
                assert(ascii_lowered(s)[p] == ascii_lower(s[p]));
                lemma_lower_concat(seq![s[p]], crate::normalize::strip_dates_from(s, p + 1));
                assert(ascii_lowered(seq![s[p]]) =~= seq![ascii_lower(s[p])]);
                assert(is_case_known(seq![s[p]]));
            },
        }
    } else {
        assert(is_case_known(Seq::<char>::empty()));
        assert(ascii_lowered(Seq::<char>::empty()) =~= Seq::<char>::empty());
    }
}

} // verus!

verus! {

/// The characters trimmed from the ends of a cleaned name.
pub open spec fn clean_ends() -> Seq<char> {
    " -_|\t\r\n"@
}

/// Cleaning a name whose characters have a stated lowercase form commutes
/// with lowercasing its ASCII letters, and keeps that property.
proof fn lemma_cleaned_lower(v: Seq<char>)
    requires
        is_case_known(v),
    ensures
        crate::normalize::cleaned(ascii_lowered(v)) == ascii_lowered(crate::normalize::cleaned(v)),
        is_case_known(crate::normalize::cleaned(v)),
{
    lemma_trim_lower(v);
    let t = trim(v);
    let lt = ascii_lowered(t);
    lemma_ascii_lowered(t);
    let a = t.map_values(|c: char| crate::normalize::clean_punct(c));
    assert(lt.map_values(|c: char| crate::normalize::clean_punct(c)) =~= ascii_lowered(a)) by {
        assert forall|k: int| 0 <= k < t.len() implies #[trigger] ascii_lowered(a)[k] == crate::normalize::clean_punct(lt[k]) by {
            lemma_lower_char(t[k]);
            assert(lt[k] == ascii_lower(t[k]));
        }
    }
    assert(is_case_known(a)) by {
        assert forall|k: int| 0 <= k < a.len() implies case_known(#[trigger] a[k]) by {
            assert(case_known(t[k]));
        }
    }
    lemma_fix_lower(a);
    let b = crate::normalize::bracket_fix(a);
    lemma_strip_lower(b, 0);
    let d = crate::normalize::strip_dates_from(b, 0);
    lemma_collapse_lower(d, 0);
    let e = crate::text::collapse_ws(d);
    reveal_strlit(" -_|\t\r\n");
    let set = clean_ends();
    assert(set =~= seq![' ', '-', '_', '|', '\t', '\r', '\n']);
    assert forall|c: char| #[trigger] in_set(set)(ascii_lower(c)) == in_set(set)(c) by {
        lemma_lower_char(c);
        if 'A' <= c && c <= 'Z' {
            assert(!set.contains(c));
            assert(!set.contains(ascii_lower(c)));
        }
    }
    lemma_trim_by_lower(e, in_set(set));
    lemma_ascii_trim_by(e, in_set(set));
}

/// Trimming twice trims once.
proof fn lemma_trim_twice(s: Seq<char>)
    ensures
        trim(trim(s)) == trim(s),
{
    let p = white();
    lemma_skip_while_bounds(s, 0, p);
    let a = skip_while(s, 0, p);
    let u = s.skip(a);
    lemma_back_while_bounds(u, u.len() as int, p);
    let b = back_while(u, u.len() as int, p);
    let t = u.take(b);
    if t.len() > 0 {
        assert(t[0] == s[a]);
        assert(t[t.len() - 1] == u[b - 1]);
        lemma_trim_by_unchanged(t, p);
    } else {
        assert(skip_while(t, 0, p) == 0);
        assert(t.skip(0) =~= t);
        assert(t.skip(0).take(0) =~= t);
    }
}

/// Surrounding whitespace does not change a name's cache key.
pub proof fn law_cache_key_ignores_surrounding_whitespace(v: Seq<char>)
    ensures
        crate::normalize::cache_key_of(trim(v)) == crate::normalize::cache_key_of(v),
{
    lemma_trim_twice(v);
}

/// Names made of ASCII characters and characters without case (Chinese
/// text, CJK and full-width punctuation among them) that differ only in the
/// case of their ASCII letters and
/// in surrounding whitespace share one cache key, so a match cached for one
/// answers the other.
pub proof fn law_cache_key_ignores_ascii_case(a: Seq<char>, b: Seq<char>)
    requires
        is_case_known(a),
        is_case_known(b),
        ascii_lowered(trim(a)) == ascii_lowered(trim(b)),
    ensures
        crate::normalize::cache_key_of(a) == crate::normalize::cache_key_of(b),
{
    lemma_trim_twice(a);
    lemma_trim_twice(b);
    lemma_trim_lower(a);
    lemma_trim_lower(b);
    lemma_key_lower(trim(a));
    lemma_key_lower(trim(b));
}

proof fn lemma_key_lower(v: Seq<char>)
    requires
        is_case_known(v),
    ensures
        crate::normalize::cache_key_of(ascii_lowered(v)) == crate::normalize::cache_key_of(v),
{
    lemma_cleaned_lower(v);
    lemma_normalized_lower(crate::normalize::cleaned(v));
}

} // verus!

verus! {

/// Whitespace in `s` is single spaces, never two in a row.
pub open spec fn spaced(s: Seq<char>) -> bool {
    &&& forall|k: int| 0 <= k < s.len() && is_white(#[trigger] s[k]) ==> s[k] == ' '
    &&& forall|k: int| 0 <= k < s.len() - 1 && is_white(#[trigger] s[k]) ==> !is_white(s[k + 1])
}

/// Every character of `s` satisfies `q`.
pub open spec fn all_chars(s: Seq<char>, q: spec_fn(char) -> bool) -> bool {
    forall|k: int| 0 <= k < s.len() ==> q(#[trigger] s[k])
}

proof fn lemma_collapse_props(s: Seq<char>, i: int, q: spec_fn(char) -> bool)
    requires
        0 <= i <= s.len(),
    ensures
        spaced(crate::text::collapse_from(s, i)),
        i < s.len() ==> crate::text::collapse_from(s, i).len() > 0 && is_white(
            crate::text::collapse_from(s, i)[0],
        ) == is_white(s[i]) && is_white(
            crate::text::collapse_from(s, i)[crate::text::collapse_from(s, i).len() - 1],
        ) == is_white(s[s.len() - 1]),
        q(' ') && (forall|k: int| i <= k < s.len() ==> q(#[trigger] s[k])) ==> all_chars(
            crate::text::collapse_from(s, i),
            q,
        ),
    decreases s.len() - i,
{
    let c = crate::text::collapse_from(s, i);
    if i < s.len() {
        if is_white(s[i]) {
            lemma_skip_while_bounds(s, i + 1, white());
            let k = skip_while(s, i + 1, white());
            lemma_collapse_props(s, k, q);
            let r = crate::text::collapse_from(s, k);
            assert(c == seq![' '] + r);
            assert(is_white(' '));
            if k == s.len() {
                assert(r.len() == 0);
                if i < s.len() - 1 {
                    assert(white()(s[s.len() - 1]));
                }
            }
            assert forall|m: int| 0 <= m < c.len() && is_white(#[trigger] c[m]) implies c[m] == ' ' by {
                if m > 0 {
                    assert(c[m] == r[m - 1]);
                }
            }
            assert forall|m: int| 0 <= m < c.len() - 1 && is_white(#[trigger] c[m]) implies !is_white(c[m + 1]) by {
                if m > 0 {
                    assert(c[m] == r[m - 1]);
                    assert(c[m + 1] == r[m]);
                } else {
                    assert(c[1] == r[0]);
                }
            }
            if q(' ') && (forall|m: int| i <= m < s.len() ==> q(#[trigger] s[m])) {
                assert forall|m: int| 0 <= m < c.len() implies q(#[trigger] c[m]) by {
                    if m > 0 {
                        assert(c[m] == r[m - 1]);
                    }
                }
            }
            if r.len() > 0 {
                assert(c[c.len() - 1] == r[r.len() - 1]);
            }
        } else {
            lemma_collapse_props(s, i + 1, q);
            let r = crate::text::collapse_from(s, i + 1);
            assert(c == seq![s[i]] + r);
            assert forall|m: int| 0 <= m < c.len() && is_white(#[trigger] c[m]) implies c[m] == ' ' by {
                if m > 0 {
                    assert(c[m] == r[m - 1]);
                }
            }
            assert forall|m: int| 0 <= m < c.len() - 1 && is_white(#[trigger] c[m]) implies !is_white(c[m + 1]) by {
                if m > 0 {
                    assert(c[m] == r[m - 1]);
                    assert(c[m + 1] == r[m]);
                }
            }
            if q(' ') && (forall|m: int| i <= m < s.len() ==> q(#[trigger] s[m])) {
                assert forall|m: int| 0 <= m < c.len() implies q(#[trigger] c[m]) by {
                    if m > 0 {
                        assert(c[m] == r[m - 1]);
                    }
                }
            }
            if r.len() > 0 {
                assert(c[c.len() - 1] == r[r.len() - 1]);
            }
        }
    }
}

/// Collapsing whitespace leaves a text whose whitespace is already single spaces.
proof fn lemma_collapse_spaced(n: Seq<char>, i: int)
    requires
        spaced(n),
        0 <= i <= n.len(),
    ensures
        crate::text::collapse_from(n, i) == n.skip(i),
    decreases n.len() - i,
{
    if i < n.len() {
        if is_white(n[i]) {
            assert(n[i] == ' ');
            if i + 1 < n.len() {
                assert(!is_white(n[i + 1]));
            }
            assert(skip_while(n, i + 1, white()) == i + 1);
            lemma_collapse_spaced(n, i + 1);
        } else {
            lemma_collapse_spaced(n, i + 1);
        }
        assert(n.skip(i) =~= seq![n[i]] + n.skip(i + 1));
    } else {
        assert(n.skip(i) =~= Seq::<char>::empty());
    }
}

/// A character that the comparison form keeps as it is.
pub open spec fn settled(c: char) -> bool {
    case_known(c) && !('A' <= c && c <= 'Z') && crate::normalize::fold_punct(c) == c
}

/// Normalising a name made of ASCII characters and characters without case
/// twice gives what normalising it once gives: the comparison form is
/// trimmed, its whitespace is single spaces, and it holds no uppercase ASCII
/// letter and none of the punctuation that normalising folds.
pub proof fn law_normalize_idempotent(x: Seq<char>)
    requires
        is_case_known(x),
    ensures
        normalized(normalized(x)) == normalized(x),
        trim(normalized(x)) == normalized(x),
{
    let q = |c: char| settled(c);
    lemma_trim_lower(x);
    let t = trim(x);
    lemma_ascii_lowered(t);
    let l = ascii_lowered(t);
    let y = l.map_values(|c: char| crate::normalize::fold_punct(c));
    assert forall|k: int| 0 <= k < y.len() implies q(#[trigger] y[k]) by {
        lemma_lower_char(t[k]);
        assert(l[k] == ascii_lower(t[k]));
    }
    let n = normalized(x);
    assert(n == crate::text::collapse_from(y, 0));
    lemma_collapse_props(y, 0, q);
    assert(q(' '));
    assert(all_chars(n, q));
    // No whitespace at either end.
    if t.len() > 0 {
        lemma_skip_while_bounds(x, 0, white());
        let a = skip_while(x, 0, white());
        let u = x.skip(a);
        lemma_back_while_bounds(u, u.len() as int, white());
        assert(!is_white(t[0]));
        assert(!is_white(t[t.len() - 1]));
        lemma_lower_char(t[0]);
        lemma_lower_char(t[t.len() - 1]);
        assert(y[0] == crate::normalize::fold_punct(ascii_lower(t[0])));
        assert(y[y.len() - 1] == crate::normalize::fold_punct(ascii_lower(t[t.len() - 1])));
        assert(!is_white(y[0]));
        assert(!is_white(y[y.len() - 1]));
        assert(!is_white(n[0]));
        assert(!is_white(n[n.len() - 1]));
        lemma_trim_by_unchanged(n, white());
    } else {
        assert(n.len() == 0);
        assert(skip_while(n, 0, white()) == 0);
        assert(n.skip(0).take(0) =~= n);
    }
    assert(trim(n) == n);
    assert(is_case_known(n));
    assert(ascii_lowered(n) =~= n) by {
        assert forall|k: int| 0 <= k < n.len() implies #[trigger] ascii_lowered(n)[k] == n[k] by {
            assert(q(n[k]));
        }
    }
    assert(n.map_values(|c: char| crate::normalize::fold_punct(c)) =~= n) by {
        assert forall|k: int| 0 <= k < n.len() implies crate::normalize::fold_punct(#[trigger] n[k]) == n[k] by {
            assert(q(n[k]));
        }
    }
    lemma_collapse_spaced(n, 0);
    assert(n.skip(0) =~= n);
}

} // verus!

verus! {

/// The comparison form of any name has its whitespace as single spaces,
/// never two in a row, and holds none of the punctuation that normalising
/// folds (`：`, `，`, `（`, `）`, `’`, `` ` ``).
pub proof fn law_normalized_shape(x: Seq<char>)
    ensures
        spaced(normalized(x)),
        forall|k: int| 0 <= k < normalized(x).len() ==> crate::normalize::fold_punct(#[trigger] normalized(x)[k]) == normalized(x)[k],
{
    let l = crate::ext::lower_text(trim(x));
    let y = l.map_values(|c: char| crate::normalize::fold_punct(c));
    let q = |c: char| crate::normalize::fold_punct(c) == c;
    assert forall|k: int| 0 <= k < y.len() implies q(#[trigger] y[k]) by {}
    lemma_collapse_props(y, 0, q);
    assert(q(' '));
    let n = normalized(x);
    assert(all_chars(n, q));
}

} // verus!

verus! {

/// A name's best candidate is accepted without review exactly when it scores
/// at least 88 and leads the runner-up (the second-best candidate, or 0
/// where there is none) by at least 5. An accepted result leads every other
/// candidate by at least 5; a result under review says so in its status and
/// its source.
pub proof fn law_accepted_only_with_clear_lead(
    original: Seq<char>,
    searches: Seq<Result<Vec<Candidate>, String>>,
)
    requires
        trim(original).len() > 0,
        crate::matching::pooled_candidates(searches).len() > 0,
    ensures
        ({
            let cands = crate::matching::pooled_candidates(searches);
            let o = trim(original);
            let v = crate::matching::found_view(o, crate::normalize::cleaned(o), cands);
            &&& cands[0].score < 88 ==> v.needs_review
            &&& cands.len() > 1 && cands[0].score - cands[1].score < 5 ==> v.needs_review
            &&& cands[0].score >= 88 && (cands.len() == 1 || cands[0].score - cands[1].score >= 5)
                ==> !v.needs_review
            &&& !v.needs_review ==> forall|k: int|
                1 <= k < cands.len() ==> cands[0].score - (#[trigger] cands[k]).score >= 5
            &&& v.needs_review ==> v.status == "已推荐，需复核"@ && v.source == "自动推荐"@
            &&& !v.needs_review ==> v.status == "已匹配"@ && v.source == "自动匹配"@
            &&& v.app_id == cands[0].app_id@ && v.score == cands[0].score
            &&& v.steam_title == cands[0].title@ && v.url == cands[0].url@
            &&& v.confidence == cands[0].confidence@ && v.candidates == cands
            &&& v.original == o && v.message.len() == 0 && !v.from_cache
        }),
{
    law_best_candidate_is_recommended(searches);
}

/// The words that mark a store result as something other than the game.
pub open spec fn marker_words() -> Seq<Seq<char>> {
    seq![
        " dlc"@,
        "soundtrack"@,
        "ost"@,
        "demo"@,
        "playtest"@,
        "dedicated server"@,
        "wallpaper"@,
        "artbook"@,
        " 试玩版"@,
        "图集"@,
        "原声音乐"@,
        "原声音乐集"@,
        "upgrade pack"@,
        "season pass"@,
        "expansion pass"@,
    ]
}

/// A store result is not the game itself exactly when the text made of a
/// space, its normalised title, a space and its normalised link holds one
/// of the marker words (` dlc`, `soundtrack`, `ost`, `demo`, ...).
pub proof fn law_non_game_markers(title: Seq<char>, url: Seq<char>)
    ensures
        ({
            let hay = seq![' '] + normalized(title) + seq![' '] + normalized(url);
            crate::normalize::likely_non_game(title, url) <==> exists|k: int|
                0 <= k < marker_words().len() && crate::text::contains_seq(hay, #[trigger] marker_words()[k])
        }),
{
    let words = crate::normalize::non_game_words();
    assert(words.len() == marker_words().len());
    assert forall|k: int| 0 <= k < words.len() implies (#[trigger] words[k])@ == marker_words()[k] by {}
}

/// No link read from a search page holds a marker word: every link has a
/// title, and the text made of a space, its normalised title, a space and
/// its normalised link holds none of ` dlc`, `soundtrack`, `ost`, `demo`, ...
pub proof fn law_search_links_hold_no_marker(page: Seq<char>)
    ensures
        forall|i: int, k: int|
            0 <= i < crate::search::search_links(page).len() && 0 <= k < marker_words().len()
                ==> !crate::text::contains_seq(
                seq![' '] + normalized((#[trigger] crate::search::search_links(page)[i]).title) + seq![' ']
                    + normalized(crate::search::search_links(page)[i].url),
                #[trigger] marker_words()[k],
            ),
{
    law_search_links_are_games(page);
    let ls = crate::search::search_links(page);
    assert forall|i: int, k: int|
        0 <= i < ls.len() && 0 <= k < marker_words().len() implies !crate::text::contains_seq(
        seq![' '] + normalized((#[trigger] ls[i]).title) + seq![' '] + normalized(ls[i].url),
        #[trigger] marker_words()[k],
    ) by {
        law_non_game_markers(ls[i].title, ls[i].url);
    }
}

/// The words that mark a parenthesised note as metadata.
pub open spec fn note_words() -> Seq<Seq<char>> {
    seq![
        "到期"@,
        "截止"@,
        "过期"@,
        "有效期"@,
        "expires"@,
        "expire"@,
        "expired"@,
        "steam"@,
        "key"@,
        "gift"@,
        "code"@,
        "兑换"@,
        "激活"@,
        "领取"@,
        "平台"@,
        "cn"@,
        "global"@,
    ]
}

/// A parenthesised note whose normalised text holds one of the note words
/// (expiry words, `steam`, `key`, `gift`, `code`, `cn`, `global`, ...) is
/// metadata, and so is dropped when a name is cleaned.
pub proof fn law_note_words_mark_metadata(t: Seq<char>)
    ensures
        forall|k: int|
            0 <= k < note_words().len() && crate::text::contains_seq(normalized(t), #[trigger] note_words()[k])
                ==> crate::normalize::is_metadata(t),
{
    let words = crate::normalize::metadata_words();
    assert(words.len() == note_words().len());
    assert forall|k: int| 0 <= k < words.len() implies (#[trigger] words[k])@ == note_words()[k] by {}
    assert forall|k: int|
        0 <= k < note_words().len() && crate::text::contains_seq(normalized(t), #[trigger] note_words()[k])
            implies crate::normalize::is_metadata(t) by {
        assert(words[k]@ == note_words()[k]);
        assert(crate::text::contains_seq(normalized(t), words[k]@));
    }
}

/// A title's score is its similarity kept within 0..=100, raised to 92 (84
/// for a compact query shorter than six characters) only where the compact
/// title contains the non-empty compact query: a title that is only part of
/// the query gets no bonus.
pub proof fn law_title_bonus_needs_containment(similarity: int, cq: Seq<char>, ct: Seq<char>)
    ensures
        ({
            let clamped = if similarity < 0 {
                0
            } else if similarity > 100 {
                100
            } else {
                similarity
            };
            let r = crate::search::finished_score(similarity, cq, ct);
            &&& 0 <= r <= 100
            &&& (cq.len() == 0 || !crate::text::contains_seq(ct, cq)) ==> r == clamped
            &&& cq.len() >= 6 && crate::text::contains_seq(ct, cq) ==> r == if clamped > 92 {
                clamped
            } else {
                92
            }
            &&& 0 < cq.len() < 6 && crate::text::contains_seq(ct, cq) ==> r == if clamped > 84 {
                clamped
            } else {
                84
            }
        }),
{
}

/// The export table puts every field under the header that names it: the
/// header row is 原始输入, 清洗后名称, 匹配状态, Steam游戏名, Steam App ID,
/// Steam链接, 置信度, 是否需要复核, 结果来源, 候选数量, 备注, and row `i + 1` holds
/// result `i`'s original name, cleaned name, status, store title, app id,
/// link, confidence, 是/否 for review, source, number of candidates and message.
pub proof fn law_export_columns(results: Seq<crate::matching::MatchResult>)
    ensures
        ({
            let t = crate::export::export_table(results);
            &&& t.len() == results.len() + 1
            &&& t[0] == seq![
                "原始输入"@,
                "清洗后名称"@,
                "匹配状态"@,
                "Steam游戏名"@,
                "Steam App ID"@,
                "Steam链接"@,
                "置信度"@,
                "是否需要复核"@,
                "结果来源"@,
                "候选数量"@,
                "备注"@,
            ]
            &&& forall|i: int|
                0 <= i < results.len() ==> (#[trigger] t[i + 1]) == seq![
                    results[i].original@,
                    results[i].cleaned@,
                    results[i].status@,
                    results[i].steam_title@,
                    results[i].app_id@,
                    results[i].url@,
                    results[i].confidence@,
                    if results[i].needs_review {
                        "是"@
                    } else {
                        "否"@
                    },
                    results[i].source@,
                    crate::text::decimal(results[i].candidates@.len()),
                    results[i].message@,
                ]
        }),
{
    let t = crate::export::export_table(results);
    assert(t[0] =~= seq![
        "原始输入"@,
        "清洗后名称"@,
        "匹配状态"@,
        "Steam游戏名"@,
        "Steam App ID"@,
        "Steam链接"@,
        "置信度"@,
        "是否需要复核"@,
        "结果来源"@,
        "候选数量"@,
        "备注"@,
    ]);
}

} // verus!
