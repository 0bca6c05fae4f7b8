use steam_link_matcher::candidate::Candidate;
use steam_link_matcher::matching::{
    confirm_result, manual_update_inner, match_game_inner, match_plan, match_record,
    needs_app_details, reuse_cached_match, ManualRequest, MatchResult, SaveRule,
};

fn candidate(app_id: &str, title: &str, score: i32) -> Candidate {
    Candidate {
        app_id: app_id.to_string(),
        title: title.to_string(),
        url: format!("https://store.steampowered.com/app/{}/", app_id),
        score,
        confidence: steam_link_matcher::normalize::confidence_for(score),
        kind: "游戏本体".to_string(),
    }
}

fn result(status: &str, source: &str, url: &str) -> MatchResult {
    MatchResult {
        original: "Hades".to_string(),
        cleaned: "Hades".to_string(),
        status: status.to_string(),
        steam_title: "Hades".to_string(),
        app_id: "1145360".to_string(),
        url: url.to_string(),
        confidence: "中".to_string(),
        score: 80,
        needs_review: true,
        source: source.to_string(),
        candidates: vec![],
        message: "note".to_string(),
        from_cache: false,
    }
}

#[test]
fn empty_name_is_not_found_and_not_saved() {
    let out = match_game_inner("   ", &vec![]);
    assert_eq!(out.result.status, "未找到");
    assert_eq!(out.result.message, "空名称");
    assert_eq!(out.result.original, "");
    assert!(out.result.needs_review);
    assert_eq!(out.save, SaveRule::Skip);
    let plan = match_plan("   ", false);
    assert!(!plan.search);
    assert!(plan.queries.is_empty());
}

#[test]
fn confident_best_candidate_is_accepted() {
    let searches = vec![Ok(vec![candidate("1", "Hades", 100), candidate("2", "Hades II", 80)])];
    let out = match_game_inner(" Hades ", &searches);
    assert_eq!(out.result.status, "已匹配");
    assert_eq!(out.result.source, "自动匹配");
    assert!(!out.result.needs_review);
    assert_eq!(out.result.app_id, "1");
    assert_eq!(out.result.original, "Hades");
    assert_eq!(out.result.score, 100);
    assert_eq!(out.result.candidates.len(), 2);
    assert_eq!(out.save, SaveRule::Required);
}

#[test]
fn close_runner_up_needs_review() {
    let searches = vec![
        Ok(vec![candidate("1", "Hades", 90)]),
        Ok(vec![candidate("2", "Hadess", 87), candidate("1", "Hades", 70)]),
    ];
    let out = match_game_inner("Hades", &searches);
    assert_eq!(out.result.status, "已推荐，需复核");
    assert_eq!(out.result.source, "自动推荐");
    assert!(out.result.needs_review);
    assert_eq!(out.result.app_id, "1");
    assert_eq!(out.result.score, 90);
    assert_eq!(out.result.candidates.len(), 2);
}

#[test]
fn failed_searches_are_reported_and_not_saved() {
    let searches: Vec<Result<Vec<Candidate>, String>> =
        vec![Err("timeout".to_string()), Err("HTTP Error 503: Service Unavailable".to_string())];
    let out = match_game_inner("Hades", &searches);
    assert_eq!(out.result.status, "未找到");
    assert_eq!(out.result.message, "Steam 搜索失败：timeout；HTTP Error 503: Service Unavailable");
    assert_eq!(out.save, SaveRule::Skip);
    let none = match_game_inner("Hades", &vec![Ok(vec![])]);
    assert_eq!(none.result.message, "没有找到候选");
    assert_eq!(none.save, SaveRule::BestEffort);
}

#[test]
fn plan_searches_cleaned_then_original() {
    let plan = match_plan(" Portal (Steam Key) ", true);
    assert!(plan.search);
    assert!(!plan.use_cache);
    assert_eq!(plan.queries, vec!["Portal".to_string(), "Portal (Steam Key)".to_string()]);
    assert!(match_plan("Portal", false).use_cache);
}

#[test]
fn cached_recommendations_are_searched_again() {
    assert!(reuse_cached_match(result("已推荐，需复核", "自动推荐", "u")).is_none());
    assert!(reuse_cached_match(result("未找到", "自动匹配", "")).is_none());
    assert!(reuse_cached_match(result("已匹配", "自动推荐", "u")).is_none());
    let kept = reuse_cached_match(result("已匹配", "自动匹配", "u")).unwrap();
    assert!(kept.from_cache);
}

#[test]
fn confirmed_result_is_reused_from_cache() {
    let confirmed = confirm_result(result("已推荐，需复核", "自动推荐", "https://x/")).unwrap();
    assert_eq!(confirmed.status, "已匹配");
    assert_eq!(confirmed.source, "人工确认");
    assert!(!confirmed.needs_review);
    assert_eq!(confirmed.message, "");
    let reused = reuse_cached_match(confirmed).unwrap();
    assert!(reused.from_cache);
}

#[test]
fn confirm_refuses_result_without_link() {
    let err = confirm_result(result("未找到", "自动匹配", "  ")).unwrap_err();
    assert_eq!(err, "只能确认已有链接的记录");
}

#[test]
fn record_is_keyed_and_not_from_cache() {
    let mut r = result("已匹配", "人工确认", "u");
    r.from_cache = true;
    let rec = match_record("Hades (Steam Key)", "Hades", &r, "manual");
    assert_eq!(rec.key, "hades");
    assert!(!rec.payload.from_cache);
    assert_eq!(rec.source, "manual");
}

#[test]
fn manual_update_uses_given_title() {
    let req = ManualRequest {
        original: "黑神话：悟空（CN）".to_string(),
        url: " https://store.steampowered.com/app/2358720/Black_Myth_Wukong/?l=schinese ".to_string(),
        steam_title: Some("Black Myth: Wukong".to_string()),
        candidates: None,
        source: Some("手动粘贴".to_string()),
    };
    assert!(!needs_app_details(&req));
    let r = manual_update_inner(req, None).unwrap();
    assert_eq!(r.app_id, "2358720");
    assert_eq!(r.url, "https://store.steampowered.com/app/2358720/Black_Myth_Wukong/");
    assert_eq!(r.steam_title, "Black Myth: Wukong");
    assert_eq!(r.cleaned, "黑神话:悟空");
    assert_eq!(r.status, "已人工修正");
    assert_eq!(r.source, "手动粘贴");
    assert_eq!(r.score, 100);
    assert_eq!(r.confidence, "高");
    assert!(!r.needs_review);
}

#[test]
fn manual_update_falls_back_to_details_then_slug() {
    let req = |title: Option<&str>| ManualRequest {
        original: "Corpse Keeper".to_string(),
        url: "store.steampowered.com/app/1601740/Corpse_Keeper".to_string(),
        steam_title: title.map(|t| t.to_string()),
        candidates: Some(vec![candidate("9", "Other", 10)]),
        source: None,
    };
    assert!(needs_app_details(&req(Some("  "))));
    let details = r#"{"1601740":{"success":true,"data":{"name":"  Corpse Keeper  "}}}"#.to_string();
    let r = manual_update_inner(req(Some("  ")), Some(details)).unwrap();
    assert_eq!(r.steam_title, "Corpse Keeper");
    assert_eq!(r.source, "人工修正");
    assert_eq!(r.candidates.len(), 1);
    let r2 = manual_update_inner(req(None), None).unwrap();
    assert_eq!(r2.steam_title, "Corpse Keeper");
    assert_eq!(r2.url, "https://store.steampowered.com/app/1601740/Corpse_Keeper/");
    let r3 = manual_update_inner(req(None), Some("not json".to_string())).unwrap();
    assert_eq!(r3.steam_title, "Corpse Keeper");
}

#[test]
fn manual_update_refuses_other_links() {
    let req = ManualRequest {
        original: "x".to_string(),
        url: "https://example.com/app/1/".to_string(),
        steam_title: None,
        candidates: None,
        source: None,
    };
    let err = manual_update_inner(req, None).unwrap_err();
    assert_eq!(
        err,
        "链接必须是 Steam 游戏本体页面，例如 https://store.steampowered.com/app/1601740/Corpse_Keeper/"
    );
}
