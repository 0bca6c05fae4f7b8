//! Settings and commands that only decide: proxy address checks, the request
//! delay, the cache-clearing modes and the proxy test verdict.

use vstd::prelude::*;
use crate::ext::string_of;
use crate::text::{
    chars_of, contains_chars, contains_seq, decimal, matches_at, occurs_at,
    parse_decimal, parse_unsigned, push_decimal, trim, trim_chars,
};

verus! {

/// The request delay used where none is stored or the stored one is unreadable.
pub const DEFAULT_REQUEST_DELAY_MS: u64 = 1500;

/// The largest request delay.
pub const MAX_REQUEST_DELAY_MS: u64 = 10000;

/// The message for a proxy address that is not an HTTP(S) address.
pub open spec fn bad_proxy_message() -> Seq<char> {
    "代理地址格式应类似 http://127.0.0.1:7890"@
}

/// A proxy address is accepted where it is blank (no proxy) or starts with
/// `http://` or `https://`.
pub open spec fn proxy_ok(p: Seq<char>) -> bool {
    trim(p).len() == 0 || occurs_at(p, 0, "http://"@) || occurs_at(p, 0, "https://"@)
}

/// Checks a proxy address.
pub fn validate_proxy_url(proxy_url: &str) -> (r: Result<(), String>)
    ensures
        proxy_ok(proxy_url@) ==> r is Ok,
        !proxy_ok(proxy_url@) ==> (r matches Err(m) && m@ == bad_proxy_message()),
{
    let p = chars_of(proxy_url);
    if trim_chars(&p).len() == 0 {
        return Ok(());
    }
    if !(matches_at(&p, 0, &chars_of("http://")) || matches_at(&p, 0, &chars_of("https://"))) {
        return Err(string_of(&chars_of("代理地址格式应类似 http://127.0.0.1:7890")));
    }
    Ok(())
}

/// A stored setting, or `default` where none is stored.
pub fn get_setting(stored: Option<String>, default: &str) -> (r: String)
    ensures
        r@ == match stored {
            Some(v) => v@,
            None => default@,
        },
{
    match stored {
        Some(v) => v,
        None => default.to_owned(),
    }
}

/// `ms` kept within `0..=10000`.
pub open spec fn clamped_delay(ms: int) -> int {
    if ms > MAX_REQUEST_DELAY_MS {
        MAX_REQUEST_DELAY_MS as int
    } else {
        ms
    }
}

/// The request delay in milliseconds from its stored text: the stored number
/// (default 1500 where none is stored or it does not parse), at most 10000.
pub open spec fn request_delay(stored: Option<Seq<char>>) -> int {
    let raw = match stored {
        Some(v) => v,
        None => decimal(DEFAULT_REQUEST_DELAY_MS as nat),
    };
    match parse_unsigned(raw, u64::MAX as int) {
        Some(v) => clamped_delay(v),
        None => DEFAULT_REQUEST_DELAY_MS as int,
    }
}

/// The request delay from its stored setting.
pub fn get_request_delay_ms(stored: Option<String>) -> (r: u64)
    ensures
        r as int == request_delay(crate::ext::opt_text(stored)),
{
    let mut default: Vec<char> = Vec::new();
    push_decimal(&mut default, DEFAULT_REQUEST_DELAY_MS);
    let raw = match stored {
        Some(v) => chars_of(v.as_str()),
        None => default,
    };
    match parse_decimal(&raw, u64::MAX) {
        Some(v) => clamp_request_delay(v),
        None => DEFAULT_REQUEST_DELAY_MS,
    }
}

/// A request delay kept within `0..=10000`.
pub fn clamp_request_delay(ms: u64) -> (r: u64)
    ensures
        r as int == clamped_delay(ms as int),
{
    if ms > MAX_REQUEST_DELAY_MS {
        MAX_REQUEST_DELAY_MS
    } else {
        ms
    }
}

/// The text that a request delay is stored as.
pub fn delay_setting_text(ms: u64) -> (r: String)
    ensures
        r@ == decimal(clamped_delay(ms as int) as nat),
{
    let mut v: Vec<char> = Vec::new();
    push_decimal(&mut v, clamp_request_delay(ms));
    string_of(&v)
}

/// The message for an unknown cache-clearing mode.
pub open spec fn bad_clear_mode_message() -> Seq<char> {
    "缓存清理模式只能是 all 或 search"@
}

/// What clearing the cache in a mode does after the search cache is emptied:
/// `all` also empties the match cache (`Ok(true)`), `search` stops there
/// (`Ok(false)`), any other mode is refused.
pub fn clear_cache_mode(mode: &str) -> (r: Result<bool, String>)
    ensures
        mode@ == "all"@ ==> r == Ok::<bool, String>(true),
        mode@ != "all"@ && mode@ == "search"@ ==> r == Ok::<bool, String>(false),
        mode@ != "all"@ && mode@ != "search"@ ==> (r matches Err(m) && m@ == bad_clear_mode_message()),
{
    let m = mode.to_owned();
    if crate::matching::text_is(&m, "all") {
        Ok(true)
    } else if !crate::matching::text_is(&m, "search") {
        Err(string_of(&chars_of("缓存清理模式只能是 all 或 search")))
    } else {
        Ok(false)
    }
}

/// The verdict of a proxy test.
pub struct ProxyTestResult {
    pub ok: bool,
    pub message: String,
}

/// A proxy test passes where the fetched page names the test game or holds
/// search results; the message says which connection was tested.
pub fn proxy_test_outcome(page: &str, proxy_url: &str) -> (r: ProxyTestResult)
    ensures
        r.ok == (contains_seq(page@, "Corpse Keeper"@) || contains_seq(page@, "search_results"@)),
        r.message@ == if !r.ok {
            "已连接，但返回内容不像 Steam 搜索页"@
        } else if trim(proxy_url@).len() == 0 {
            "Steam 连接测试成功"@
        } else {
            "代理测试成功"@
        },
{
    let p = chars_of(page);
    let ok = contains_chars(&p, &chars_of("Corpse Keeper")) || contains_chars(
        &p,
        &chars_of("search_results"),
    );
    let message = if ok {
        if trim_chars(&chars_of(proxy_url)).len() == 0 {
            "Steam 连接测试成功".to_owned()
        } else {
            "代理测试成功".to_owned()
        }
    } else {
        "已连接，但返回内容不像 Steam 搜索页".to_owned()
    };
    ProxyTestResult { ok, message }
}

} // verus!
