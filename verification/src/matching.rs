//! Match results for names: the decisions that turn searches, cached results
//! and manual corrections into the result shown for a name.

use vstd::prelude::*;
use crate::candidate::{
    Candidate, merge_all, merge_candidate, query_variants, sort_by_score, sort_candidates,
    initial_query_variants, texts,
};
use crate::ext::string_of;
use crate::normalize::{clean_chars, cleaned};
use crate::text::{chars_of, push_all, trim, trim_chars};

verus! {

/// The result shown for one name.
#[derive(Clone, Debug)]
pub struct MatchResult {
    pub original: String,
    pub cleaned: String,
    pub status: String,
    pub steam_title: String,
    pub app_id: String,
    pub url: String,
    pub confidence: String,
    pub score: i32,
    pub needs_review: bool,
    pub source: String,
    pub candidates: Vec<Candidate>,
    pub message: String,
    pub from_cache: bool,
}

/// A match result as values.
pub ghost struct MatchView {
    pub original: Seq<char>,
    pub cleaned: Seq<char>,
    pub status: Seq<char>,
    pub steam_title: Seq<char>,
    pub app_id: Seq<char>,
    pub url: Seq<char>,
    pub confidence: Seq<char>,
    pub score: int,
    pub needs_review: bool,
    pub source: Seq<char>,
    pub candidates: Seq<Candidate>,
    pub message: Seq<char>,
    pub from_cache: bool,
}

impl View for MatchResult {
    type V = MatchView;

    open spec fn view(&self) -> MatchView {
        MatchView {
            original: self.original@,
            cleaned: self.cleaned@,
            status: self.status@,
            steam_title: self.steam_title@,
            app_id: self.app_id@,
            url: self.url@,
            confidence: self.confidence@,
            score: self.score as int,
            needs_review: self.needs_review,
            source: self.source@,
            candidates: self.candidates@,
            message: self.message@,
            from_cache: self.from_cache,
        }
    }
}

/// Whether and how a decided result is written to the match cache.
#[derive(Clone, Copy, Debug, PartialEq, Eq)]
pub enum SaveRule {
    /// Not written.
    Skip,
    /// Written; a failure to write is ignored.
    BestEffort,
    /// Written; a failure to write fails the match.
    Required,
}

/// A decided result and how it is cached.
pub struct MatchOutcome {
    pub result: MatchResult,
    pub save: SaveRule,
}

/// What matching a name needs: whether to search at all, whether a cached
/// result may answer first, and the queries to search.
pub struct MatchPlan {
    pub search: bool,
    pub use_cache: bool,
    pub queries: Vec<String>,
}

/// The result for a name that has no match (`未找到`, found automatically).
pub open spec fn not_found_view(original: Seq<char>, cleaned: Seq<char>, message: Seq<char>) -> MatchView {
    MatchView {
        original: original,
        cleaned: cleaned,
        status: "未找到"@,
        steam_title: seq![],
        app_id: seq![],
        url: seq![],
        confidence: "低"@,
        score: 0,
        needs_review: true,
        source: "自动匹配"@,
        candidates: seq![],
        message: message,
        from_cache: false,
    }
}

/// `parts` joined with `sep` between consecutive parts.
pub open spec fn join_with(parts: Seq<Seq<char>>, sep: Seq<char>) -> Seq<char>
    decreases parts.len(),
{
    if parts.len() == 0 {
        seq![]
    } else if parts.len() == 1 {
        parts[0]
    } else {
        join_with(parts.drop_last(), sep) + sep + parts.last()
    }
}

/// The candidates of the searches that succeeded, in search order.
pub open spec fn found_candidates(searches: Seq<Result<Vec<Candidate>, String>>) -> Seq<Candidate>
    decreases searches.len(),
{
    if searches.len() == 0 {
        seq![]
    } else {
        found_candidates(searches.drop_last()) + match searches.last() {
            Ok(v) => v@,
            Err(_) => seq![],
        }
    }
}

/// The messages of the searches that failed, in search order.
pub open spec fn search_errors(searches: Seq<Result<Vec<Candidate>, String>>) -> Seq<Seq<char>>
    decreases searches.len(),
{
    if searches.len() == 0 {
        seq![]
    } else {
        search_errors(searches.drop_last()) + match searches.last() {
            Ok(_) => seq![],
            Err(e) => seq![e@],
        }
    }
}

/// The candidates found for a name: for each store id the best-scoring one
/// found, ordered by descending score.
pub open spec fn pooled_candidates(searches: Seq<Result<Vec<Candidate>, String>>) -> Seq<Candidate> {
    sort_by_score(merge_all(seq![], found_candidates(searches)))
}

/// A best candidate is accepted without review where it scores at least 88
/// and at least 5 more than the runner-up (0 where there is none).
pub open spec fn confident(cands: Seq<Candidate>) -> bool {
    let second: int = if cands.len() > 1 {
        cands[1].score as int
    } else {
        0
    };
    cands[0].score >= 88 && cands[0].score - second >= 5
}

/// The result for a name with candidates: the best one, accepted (`已匹配`)
/// or recommended for review (`已推荐，需复核`).
pub open spec fn found_view(original: Seq<char>, cleaned: Seq<char>, cands: Seq<Candidate>) -> MatchView {
    let best = cands[0];
    let high = confident(cands);
    MatchView {
        original: original,
        cleaned: cleaned,
        status: if high {
            "已匹配"@
        } else {
            "已推荐，需复核"@
        },
        steam_title: best.title@,
        app_id: best.app_id@,
        url: best.url@,
        confidence: best.confidence@,
        score: best.score as int,
        needs_review: !high,
        source: if high {
            "自动匹配"@
        } else {
            "自动推荐"@
        },
        candidates: cands,
        message: seq![],
        from_cache: false,
    }
}

/// The plan for matching `original`.
pub fn match_plan(original: &str, force: bool) -> (r: MatchPlan)
    ensures
        r.search == (trim(original@).len() > 0),
        r.use_cache == (r.search && !force),
        r.search ==> texts(r.queries@) == query_variants(trim(original@), cleaned(trim(original@))),
        !r.search ==> r.queries@.len() == 0,
{
    let t = trim_chars(&chars_of(original));
    if t.len() == 0 {
        return MatchPlan { search: false, use_cache: false, queries: Vec::new() };
    }
    let c = clean_chars(&t);
    let ts = string_of(&t);
    let cs = string_of(&c);
    let queries = initial_query_variants(ts.as_str(), cs.as_str());
    MatchPlan { search: true, use_cache: !force, queries }
}

fn text_of(s: &str) -> (r: String)
    ensures
        r@ == s@,
{
    s.to_owned()
}

/// Decides the result for `original` from the searches of its planned
/// queries: the best candidate, or `未找到` with the reason.
pub fn match_game_inner(original: &str, searches: &Vec<Result<Vec<Candidate>, String>>) -> (r: MatchOutcome)
    ensures
        ({
            let o = trim(original@);
            let c = cleaned(o);
            let cands = pooled_candidates(searches@);
            let errs = search_errors(searches@);
            if o.len() == 0 {
                &&& r.result@ == not_found_view(seq![], c, "空名称"@)
                &&& r.save == SaveRule::Skip
            } else if cands.len() == 0 {
                &&& r.result@ == not_found_view(
                    o,
                    c,
                    if errs.len() == 0 {
                        "没有找到候选"@
                    } else {
                        "Steam 搜索失败："@ + join_with(errs, "；"@)
                    },
                )
                &&& r.save == if errs.len() == 0 {
                    SaveRule::BestEffort
                } else {
                    SaveRule::Skip
                }
            } else {
                &&& r.result@ == found_view(o, c, cands)
                &&& r.save == SaveRule::Required
            }
        }),
{
    let t = trim_chars(&chars_of(original));
    let cleaned_name = string_of(&clean_chars(&t));
    if t.len() == 0 {
        let result = MatchResult {
            original: String::new(),
            cleaned: cleaned_name,
            status: text_of("未找到"),
            steam_title: String::new(),
            app_id: String::new(),
            url: String::new(),
            confidence: text_of("低"),
            score: 0,
            needs_review: true,
            source: text_of("自动匹配"),
            candidates: Vec::new(),
            message: text_of("空名称"),
            from_cache: false,
        };
        assert(result@ == not_found_view(seq![], cleaned(trim(original@)), "空名称"@));
        return MatchOutcome { result, save: SaveRule::Skip };
    }
    let mut pool: Vec<Candidate> = Vec::new();
    let mut errors: Vec<Vec<char>> = Vec::new();
    let mut i: usize = 0;
    while i < searches.len()
        invariant
            i <= searches.len(),
            pool@ == merge_all(seq![], found_candidates(searches@.take(i as int))),
            errors@.map_values(|e: Vec<char>| e@) == search_errors(searches@.take(i as int)),
        decreases searches.len() - i,
    {
        assert(searches@.take(i + 1).drop_last() =~= searches@.take(i as int));
        let ghost before = found_candidates(searches@.take(i as int));
        match &searches[i] {
            Ok(v) => {
                let mut k: usize = 0;
                while k < v.len()
                    invariant
                        k <= v.len(),
                        pool@ == merge_all(seq![], before + v@.take(k as int)),
                    decreases v.len() - k,
                {
                    assert((before + v@.take(k + 1)).drop_last() =~= before + v@.take(k as int));
                    merge_candidate(&mut pool, v[k].duplicate());
                    k = k + 1;
                }
                assert(v@.take(k as int) =~= v@);
                assert(found_candidates(searches@.take(i + 1)) == before + v@);
            },
            Err(e) => {
                errors.push(chars_of(e.as_str()));
                assert(errors@.map_values(|e: Vec<char>| e@) =~= search_errors(searches@.take(i as int)).push(e@));
                assert(found_candidates(searches@.take(i + 1)) =~= before);
            },
        }
        i = i + 1;
    }
    assert(searches@.take(i as int) =~= searches@);
    let candidates = sort_candidates(&pool);
    let ts = string_of(&t);
    if candidates.len() == 0 {
        let no_errors = errors.len() == 0;
        let mut message: Vec<char>;
        if no_errors {
            message = chars_of("没有找到候选");
        } else {
            message = chars_of("Steam 搜索失败：");
            let sep = chars_of("；");
            let ghost head = message@;
            let ghost errs = errors@.map_values(|e: Vec<char>| e@);
            let mut k: usize = 0;
            while k < errors.len()
                invariant
                    0 < errors.len(),
                    k <= errors.len(),
                    errs == errors@.map_values(|e: Vec<char>| e@),
                    sep@ == "；"@,
                    message@ == head + join_with(errs.take(k as int), sep@),
                decreases errors.len() - k,
            {
                assert(errs.take(k + 1).drop_last() =~= errs.take(k as int));
                if k > 0 {
                    push_all(&mut message, &sep);
                } else {
                    assert(errs.take(k as int) =~= seq![]);
                }
                push_all(&mut message, &errors[k]);
                proof {
                    if k == 0 {
                        assert(join_with(errs.take(1), sep@) == errs.take(1)[0]);
                    }
                }
                assert(message@ =~= head + join_with(errs.take(k + 1), sep@));
                k = k + 1;
            }
            assert(errs.take(k as int) =~= errs);
        }
        let result = MatchResult {
            original: ts,
            cleaned: cleaned_name,
            status: text_of("未找到"),
            steam_title: String::new(),
            app_id: String::new(),
            url: String::new(),
            confidence: text_of("低"),
            score: 0,
            needs_review: true,
            source: text_of("自动匹配"),
            candidates: Vec::new(),
            message: string_of(&message),
            from_cache: false,
        };
        let save = if no_errors {
            SaveRule::BestEffort
        } else {
            SaveRule::Skip
        };
        return MatchOutcome { result, save };
    }
    let best = candidates[0].duplicate();
    let second: i32 = if candidates.len() > 1 {
        candidates[1].score
    } else {
        0
    };
    let high: bool = best.score >= 88 && (best.score as i64 - second as i64) >= 5;
    let result = MatchResult {
        original: ts,
        cleaned: cleaned_name,
        status: if high {
            text_of("已匹配")
        } else {
            text_of("已推荐，需复核")
        },
        steam_title: best.title,
        app_id: best.app_id,
        url: best.url,
        confidence: best.confidence,
        score: best.score,
        needs_review: !high,
        source: if high {
            text_of("自动匹配")
        } else {
            text_of("自动推荐")
        },
        candidates,
        message: String::new(),
        from_cache: false,
    };
    MatchOutcome { result, save: SaveRule::Required }
}

} // verus!

verus! {

/// A cached result that automatic matching may not reuse: an automatic
/// `未找到`, or a recommendation that still awaits review.
pub open spec fn stale_cached(v: MatchView) -> bool {
    ||| (v.status == "未找到"@ && v.source == "自动匹配"@)
    ||| v.status == "已推荐，需复核"@
    ||| v.source == "自动推荐"@
}

/// Whether `s` holds the text of `lit`.
pub fn text_is(s: &String, lit: &str) -> (r: bool)
    ensures
        r == (s@ == lit@),
{
    let t = lit.to_owned();
    *s == t
}

/// Decides whether a cached result answers a name: stale results do not;
/// any other result does, marked as coming from the cache.
pub fn reuse_cached_match(item: MatchResult) -> (r: Option<MatchResult>)
    ensures
        stale_cached(item@) ==> r is None,
        !stale_cached(item@) ==> (r matches Some(x) && x@ == (MatchView { from_cache: true, ..item@ })),
{
    if (text_is(&item.status, "未找到") && text_is(&item.source, "自动匹配")) || text_is(
        &item.status,
        "已推荐，需复核",
    ) || text_is(&item.source, "自动推荐") {
        return None;
    }
    let mut item = item;
    item.from_cache = true;
    Some(item)
}

/// The message for confirming a result that has no link.
pub open spec fn confirm_refused_message() -> Seq<char> {
    "只能确认已有链接的记录"@
}

/// Confirms a result by hand: refused where the name or the link is blank;
/// otherwise the result becomes `已匹配` from `人工确认`, needs no review and
/// carries no message.
pub fn confirm_result(result: MatchResult) -> (r: Result<MatchResult, String>)
    ensures
        trim(result.original@).len() == 0 || trim(result.url@).len() == 0 ==> (r matches Err(m)
            && m@ == confirm_refused_message()),
        trim(result.original@).len() > 0 && trim(result.url@).len() > 0 ==> (r matches Ok(x) && x@
            == (MatchView {
            status: "已匹配"@,
            needs_review: false,
            source: "人工确认"@,
            message: seq![],
            from_cache: false,
            ..result@
        })),
{
    let o = trim_chars(&chars_of(result.original.as_str()));
    let u = trim_chars(&chars_of(result.url.as_str()));
    if o.len() == 0 || u.len() == 0 {
        return Err(text_of("只能确认已有链接的记录"));
    }
    let mut result = result;
    result.status = text_of("已匹配");
    result.needs_review = false;
    result.source = text_of("人工确认");
    result.message = String::new();
    result.from_cache = false;
    Ok(result)
}

/// A row of the match cache.
pub struct MatchRecord {
    pub key: String,
    pub original: String,
    pub cleaned: String,
    pub payload: MatchResult,
    pub source: String,
}

/// The cache row for a result: keyed by the cache key of the name, the
/// stored result never marked as coming from the cache.
pub fn match_record(original: &str, cleaned: &str, result: &MatchResult, source: &str) -> (r: MatchRecord)
    ensures
        r.key@ == crate::normalize::cache_key_of(original@),
        r.original@ == original@,
        r.cleaned@ == cleaned@,
        r.payload@ == (MatchView { from_cache: false, ..result@ }),
        r.source@ == source@,
{
    let mut payload = result.clone_result();
    payload.from_cache = false;
    MatchRecord {
        key: crate::normalize::cache_key(original),
        original: text_of(original),
        cleaned: text_of(cleaned),
        payload,
        source: text_of(source),
    }
}

impl MatchResult {
    /// A copy of this result with equal fields.
    pub fn clone_result(&self) -> (r: MatchResult)
        ensures
            r@ == self@,
    {
        let mut cands: Vec<Candidate> = Vec::new();
        let mut i: usize = 0;
        while i < self.candidates.len()
            invariant
                i <= self.candidates.len(),
                cands@ == self.candidates@.take(i as int),
            decreases self.candidates.len() - i,
        {
            cands.push(self.candidates[i].duplicate());
            i = i + 1;
            assert(cands@ =~= self.candidates@.take(i as int));
        }
        assert(self.candidates@.take(i as int) =~= self.candidates@);
        MatchResult {
            original: self.original.clone(),
            cleaned: self.cleaned.clone(),
            status: self.status.clone(),
            steam_title: self.steam_title.clone(),
            app_id: self.app_id.clone(),
            url: self.url.clone(),
            confidence: self.confidence.clone(),
            score: self.score,
            needs_review: self.needs_review,
            source: self.source.clone(),
            candidates: cands,
            message: self.message.clone(),
            from_cache: self.from_cache,
        }
    }
}

} // verus!

verus! {

/// A manual correction: a name, the store link chosen for it, and what the
/// page chose along with it.
pub struct ManualRequest {
    pub original: String,
    pub url: String,
    pub steam_title: Option<String>,
    pub candidates: Option<Vec<Candidate>>,
    pub source: Option<String>,
}

/// The title supplied with a correction, where it is not blank.
pub open spec fn given_title(req: ManualRequest) -> Option<Seq<char>> {
    match req.steam_title {
        Some(t) => if trim(t@).len() > 0 {
            Some(t@)
        } else {
            None
        },
        None => None,
    }
}

/// Whether a correction needs the store's details to name the game.
pub fn needs_app_details(req: &ManualRequest) -> (r: bool)
    ensures
        r == (given_title(*req) is None),
{
    match &req.steam_title {
        Some(t) => trim_chars(&chars_of(t.as_str())).len() == 0,
        None => true,
    }
}

/// The result that a manual correction records: `已人工修正` with full
/// confidence, from `手动粘贴` where the page says so and `人工修正` otherwise.
pub open spec fn corrected_view(req: ManualRequest, details: Option<Seq<char>>) -> MatchView {
    let s = trim(req.url@);
    let p = crate::store::first_app_link(s, 0)->0;
    let app_id = crate::store::link_app_id(s, p);
    let url = crate::store::canonical_link(app_id, crate::store::link_slug(s, p));
    MatchView {
        original: req.original@,
        cleaned: cleaned(req.original@),
        status: "已人工修正"@,
        steam_title: match given_title(req) {
            Some(t) => t,
            None => crate::store::app_title(details, app_id, url),
        },
        app_id: app_id,
        url: url,
        confidence: "高"@,
        score: 100,
        needs_review: false,
        source: if req.source matches Some(src) && src@ == "手动粘贴"@ {
            "手动粘贴"@
        } else {
            "人工修正"@
        },
        candidates: match req.candidates {
            Some(c) => c@,
            None => seq![],
        },
        message: seq![],
        from_cache: false,
    }
}

/// Records a manual correction: refused where the link is not a store app
/// page; `details` is the store's details response for the app where it
/// was fetched, used only where the correction gives no title.
pub fn manual_update_inner(req: ManualRequest, details: Option<String>) -> (r: Result<MatchResult, String>)
    ensures
        crate::store::first_app_link(trim(req.url@), 0) is None ==> (r matches Err(m) && m@
            == crate::store::bad_link_message()),
        crate::store::first_app_link(trim(req.url@), 0) is Some ==> (r matches Ok(x) && x@
            == corrected_view(req, crate::ext::opt_text(details))),
{
    let cleaned_name = string_of(&clean_chars(&chars_of(req.original.as_str())));
    let (app_id, url) = match crate::store::normalize_steam_app_url(req.url.as_str()) {
        Ok(pair) => pair,
        Err(m) => {
            return Err(m);
        },
    };
    let needs = needs_app_details(&req);
    let ManualRequest { original, url: _, steam_title, candidates, source } = req;
    let title = if needs {
        crate::store::fetch_app_title(details, app_id.as_str(), url.as_str())
    } else {
        match steam_title {
            Some(t) => t,
            None => String::new(),
        }
    };
    let from_paste = match &source {
        Some(s) => text_is(s, "手动粘贴"),
        None => false,
    };
    let result = MatchResult {
        original,
        cleaned: cleaned_name,
        status: text_of("已人工修正"),
        steam_title: title,
        app_id,
        url,
        confidence: text_of("高"),
        score: 100,
        needs_review: false,
        source: if from_paste {
            text_of("手动粘贴")
        } else {
            text_of("人工修正")
        },
        candidates: match candidates {
            Some(c) => c,
            None => Vec::new(),
        },
        message: String::new(),
        from_cache: false,
    };
    Ok(result)
}

} // verus!
