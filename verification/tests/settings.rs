use steam_link_matcher::fetch::{
    effective_proxy, fetch_step, fetch_url, throttle_steam_request, FetchEvent, FetchStep, Pace,
};
use steam_link_matcher::settings::{
    clamp_request_delay, clear_cache_mode, delay_setting_text, get_request_delay_ms, get_setting,
    proxy_test_outcome, validate_proxy_url,
};

#[test]
fn proxy_addresses() {
    assert!(validate_proxy_url("").is_ok());
    assert!(validate_proxy_url("   ").is_ok());
    assert!(validate_proxy_url("http://127.0.0.1:7890").is_ok());
    assert!(validate_proxy_url("https://proxy:8443").is_ok());
    assert_eq!(
        validate_proxy_url("socks5://127.0.0.1:1080").unwrap_err(),
        "代理地址格式应类似 http://127.0.0.1:7890"
    );
    assert!(validate_proxy_url(" http://x").is_err());
}

#[test]
fn settings_and_delay() {
    assert_eq!(get_setting(None, "d"), "d");
    assert_eq!(get_setting(Some("v".to_string()), "d"), "v");
    assert_eq!(get_request_delay_ms(None), 1500);
    assert_eq!(get_request_delay_ms(Some("2500".to_string())), 2500);
    assert_eq!(get_request_delay_ms(Some("+300".to_string())), 300);
    assert_eq!(get_request_delay_ms(Some("99999".to_string())), 10000);
    assert_eq!(get_request_delay_ms(Some("abc".to_string())), 1500);
    assert_eq!(get_request_delay_ms(Some("-5".to_string())), 1500);
    assert_eq!(get_request_delay_ms(Some("99999999999999999999".to_string())), 1500);
    assert_eq!(clamp_request_delay(12000), 10000);
    assert_eq!(delay_setting_text(2500), "2500");
    assert_eq!(delay_setting_text(0), "0");
    assert_eq!(delay_setting_text(u64::MAX), "10000");
}

#[test]
fn clear_cache_modes() {
    assert_eq!(clear_cache_mode("all"), Ok(true));
    assert_eq!(clear_cache_mode("search"), Ok(false));
    assert_eq!(clear_cache_mode("ALL").unwrap_err(), "缓存清理模式只能是 all 或 search");
}

#[test]
fn proxy_test_messages() {
    let ok = proxy_test_outcome("<div id=\"search_results\">", "");
    assert!(ok.ok);
    assert_eq!(ok.message, "Steam 连接测试成功");
    let via = proxy_test_outcome("Corpse Keeper", " http://p:1 ");
    assert_eq!(via.message, "代理测试成功");
    let bad = proxy_test_outcome("<html>blocked</html>", "");
    assert!(!bad.ok);
    assert_eq!(bad.message, "已连接，但返回内容不像 Steam 搜索页");
}

#[test]
fn request_plan_trims_proxy() {
    assert_eq!(effective_proxy("  http://p:1 "), Some("http://p:1".to_string()));
    assert_eq!(effective_proxy(" \t"), None);
    let r = fetch_url("https://store.steampowered.com/", 20, None);
    assert_eq!(r.timeout_secs, 20);
    assert!(r.proxy.is_none());
    let r2 = fetch_url("u", 5, Some("http://q:2".to_string()));
    assert_eq!(r2.proxy, Some("http://q:2".to_string()));
}

#[test]
fn throttle_waits_rest_of_delay() {
    assert!(matches!(throttle_steam_request("https://example.com/", 1500, Some(0)), Pace::Free));
    assert!(matches!(throttle_steam_request("https://store.steampowered.com/x", 0, Some(0)), Pace::Free));
    match throttle_steam_request("https://store.steampowered.com/x", 1500, Some(500_000_000)) {
        Pace::Wait(ns) => assert_eq!(ns, 1_000_000_000),
        Pace::Free => panic!("store requests are paced"),
    }
    match throttle_steam_request("https://store.steampowered.com/x", 1500, None) {
        Pace::Wait(ns) => assert_eq!(ns, 0),
        Pace::Free => panic!("store requests are paced"),
    }
    match throttle_steam_request("https://store.steampowered.com/x", 1500, Some(2_000_000_000)) {
        Pace::Wait(ns) => assert_eq!(ns, 0),
        Pace::Free => panic!("store requests are paced"),
    }
}

#[test]
fn retry_decisions() {
    let limited = |retry: Option<&str>| FetchEvent::Status {
        code: 429,
        success: false,
        retry_after: retry.map(|s| s.to_string()),
        reason: Some("Too Many Requests".to_string()),
    };
    assert!(matches!(fetch_step(0, &limited(None), 1500), FetchStep::Retry(3)));
    assert!(matches!(fetch_step(2, &limited(None), 1500), FetchStep::Retry(7)));
    assert!(matches!(fetch_step(1, &limited(Some("60")), 1500), FetchStep::Retry(30)));
    assert!(matches!(fetch_step(1, &limited(Some("4")), 1500), FetchStep::Retry(4)));
    match fetch_step(4, &limited(None), 1500) {
        FetchStep::Fail(m) => assert_eq!(m, "HTTP Error 429: Too Many Requests"),
        _ => panic!("the last attempt gives up"),
    }
    let ok = FetchEvent::Status { code: 200, success: true, retry_after: None, reason: Some("OK".to_string()) };
    assert!(matches!(fetch_step(0, &ok, 1500), FetchStep::ReadBody));
    let missing = FetchEvent::Status { code: 404, success: false, retry_after: None, reason: None };
    match fetch_step(0, &missing, 1500) {
        FetchStep::Fail(m) => assert_eq!(m, "HTTP Error 404: "),
        _ => panic!("an unsuccessful status fails"),
    }
    let down = FetchEvent::Transport("connection refused".to_string());
    assert!(matches!(fetch_step(0, &down, 1500), FetchStep::Retry(2)));
    assert!(matches!(fetch_step(2, &down, 5000), FetchStep::Retry(15)));
    assert!(matches!(fetch_step(1, &down, 3000), FetchStep::Retry(6)));
    match fetch_step(4, &down, 1500) {
        FetchStep::Fail(m) => assert_eq!(m, "connection refused"),
        _ => panic!("the last attempt gives up"),
    }
}
