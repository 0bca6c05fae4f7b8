//! Decisions around store requests: which proxy to use, how long to wait
//! before a store request, and what to do after each attempt.

use vstd::prelude::*;
use crate::ext::{opt_text, string_of};
use crate::text::{
    chars_of, contains_chars, contains_seq, decimal, parse_decimal, parse_unsigned, push_all,
    push_decimal, trim, trim_chars,
};

verus! {

/// How many attempts a request gets.
pub const MAX_ATTEMPTS: u32 = 5;

/// The proxy a request goes through: the trimmed setting, or none where it is blank.
pub open spec fn proxy_of(setting: Seq<char>) -> Option<Seq<char>> {
    if trim(setting).len() == 0 {
        None
    } else {
        Some(trim(setting))
    }
}

/// The proxy a request goes through.
pub fn effective_proxy(proxy_url: &str) -> (r: Option<String>)
    ensures
        opt_text(r) == proxy_of(proxy_url@),
{
    let t = trim_chars(&chars_of(proxy_url));
    if t.len() == 0 {
        None
    } else {
        Some(string_of(&t))
    }
}

/// A request to make: the address, its timeout and the proxy to go through.
pub struct FetchRequest {
    pub url: String,
    pub timeout_secs: u64,
    pub proxy: Option<String>,
}

/// The request for `url` with the stored proxy setting (blank where none is stored).
pub fn fetch_url(url: &str, timeout_secs: u64, stored_proxy: Option<String>) -> (r: FetchRequest)
    ensures
        r.url@ == url@,
        r.timeout_secs == timeout_secs,
        opt_text(r.proxy) == proxy_of(
            match stored_proxy {
                Some(p) => p@,
                None => seq![],
            },
        ),
{
    proof {
        reveal_strlit("");
    }
    let setting = crate::settings::get_setting(stored_proxy, "");
    FetchRequest { url: url.to_owned(), timeout_secs, proxy: effective_proxy(setting.as_str()) }
}

/// Only requests to the store are paced.
pub open spec fn paced(url: Seq<char>) -> bool {
    contains_seq(url, "store.steampowered.com"@)
}

/// How a request is paced.
pub enum Pace {
    /// Not paced, and the time of the last store request is kept.
    Free,
    /// Paced: wait this many nanoseconds, then record this request's time.
    Wait(u128),
}

/// The pacing of a request to `url` with a delay of `delay_ms` between store
/// requests, `elapsed_ns` after the last one (none where there was none):
/// the rest of the delay where less has passed.
pub fn throttle_steam_request(url: &str, delay_ms: u64, elapsed_ns: Option<u128>) -> (r: Pace)
    ensures
        !paced(url@) || delay_ms == 0 ==> r is Free,
        paced(url@) && delay_ms > 0 ==> (r matches Pace::Wait(w) && w == match elapsed_ns {
            Some(e) => if e < delay_ms as int * 1_000_000 {
                delay_ms as int * 1_000_000 - e
            } else {
                0
            },
            None => 0,
        }),
{
    if !contains_chars(&chars_of(url), &chars_of("store.steampowered.com")) || delay_ms == 0 {
        return Pace::Free;
    }
    let delay_ns: u128 = delay_ms as u128 * 1_000_000;
    match elapsed_ns {
        Some(e) => if e < delay_ns {
            Pace::Wait(delay_ns - e)
        } else {
            Pace::Wait(0)
        },
        None => Pace::Wait(0),
    }
}

/// What one attempt of a request gave.
pub enum FetchEvent {
    /// A response with this status; `retry_after` is its `Retry-After`
    /// header where the header is text, `reason` the status's canonical reason.
    Status { code: u16, success: bool, retry_after: Option<String>, reason: Option<String> },
    /// No response; the error's message.
    Transport(String),
}

/// What to do after an attempt.
pub enum FetchStep {
    /// Wait this many seconds, then make the next attempt.
    Retry(u64),
    /// Read the response body: it is the result.
    ReadBody,
    /// Give up with this message.
    Fail(String),
}

/// The message for a response with an unsuccessful status.
pub open spec fn http_error_message(code: u16, reason: Option<Seq<char>>) -> Seq<char> {
    "HTTP Error "@ + decimal(code as nat) + ": "@ + match reason {
        Some(r) => r,
        None => seq![],
    }
}

/// The seconds to wait after a rate-limited attempt: the `Retry-After`
/// seconds where the header is a number, else `3 + 2 * attempt`; at most 30.
pub open spec fn rate_limit_wait(attempt: int, retry_after: Option<Seq<char>>) -> int {
    let w = match retry_after {
        Some(h) => match parse_unsigned(h, u64::MAX as int) {
            Some(v) => v,
            None => 3 + 2 * attempt,
        },
        None => 3 + 2 * attempt,
    };
    if w < 30 {
        w
    } else {
        30
    }
}

/// The seconds to wait after a failed connection: the request delay in
/// whole seconds (at least 2) times the attempt number, at most 15.
pub open spec fn transport_wait(attempt: int, delay_ms: int) -> int {
    let base = if delay_ms / 1000 > 2 {
        delay_ms / 1000
    } else {
        2
    };
    let w = base * (attempt + 1);
    if w < 15 {
        w
    } else {
        15
    }
}

/// The step after attempt number `attempt` (from 0) of at most five: a
/// rate-limited response or a failed connection is retried until the last
/// attempt, any other unsuccessful status fails, a successful one is read.
pub fn fetch_step(attempt: u32, event: &FetchEvent, delay_ms: u64) -> (r: FetchStep)
    requires
        attempt < MAX_ATTEMPTS,
    ensures
        match *event {
            FetchEvent::Status { code, success, retry_after, reason } => if code == 429 && attempt
                < 4 {
                r matches FetchStep::Retry(w) && w == rate_limit_wait(attempt as int, opt_text(retry_after))
            } else if !success {
                r matches FetchStep::Fail(m) && m@ == http_error_message(code, opt_text(reason))
            } else {
                r is ReadBody
            },
            FetchEvent::Transport(m) => if attempt < 4 {
                r matches FetchStep::Retry(w) && w == transport_wait(attempt as int, delay_ms as int)
            } else {
                r matches FetchStep::Fail(x) && x@ == m@
            },
        },
{
    match event {
        FetchEvent::Status { code, success, retry_after, reason } => {
            if *code == 429 && attempt < 4 {
                let fallback: u64 = 3 + attempt as u64 * 2;
                let w: u64 = match retry_after {
                    Some(h) => match parse_decimal(&chars_of(h.as_str()), u64::MAX) {
                        Some(v) => v,
                        None => fallback,
                    },
                    None => fallback,
                };
                return FetchStep::Retry(if w < 30 { w } else { 30 });
            }
            if !*success {
                let mut m = chars_of("HTTP Error ");
                push_decimal(&mut m, *code as u64);
                push_all(&mut m, &chars_of(": "));
                match reason {
                    Some(r) => push_all(&mut m, &chars_of(r.as_str())),
                    None => {},
                }
                assert(m@ =~= http_error_message(*code, opt_text(*reason)));
                return FetchStep::Fail(string_of(&m));
            }
            FetchStep::ReadBody
        },
        FetchEvent::Transport(m) => {
            if attempt < 4 {
                let secs: u64 = delay_ms / 1000;
                let base: u64 = if secs > 2 {
                    secs
                } else {
                    2
                };
                let w: u64 = if base >= 15 {
                    15
                } else {
                    assert(base * (attempt as u64 + 1) <= 14 * 4) by (nonlinear_arith)
                        requires
                            base < 15,
                            attempt < 4,
                    ;
                    let p: u64 = base * (attempt as u64 + 1);
                    if p < 15 {
                        p
                    } else {
                        15
                    }
                };
                assert(w == transport_wait(attempt as int, delay_ms as int)) by (nonlinear_arith)
                    requires
                        base == (if delay_ms / 1000 > 2 { delay_ms / 1000 } else { 2 }),
                        attempt < 4,
                        w == (if base >= 15 { 15 } else if base * (attempt + 1) < 15 { base * (
                        attempt + 1) } else { 15 }),
                ;
                FetchStep::Retry(w)
            } else {
                FetchStep::Fail(m.clone())
            }
        },
    }
}

} // verus!

verus! {

/// Whether requests to `url` are paced (it is a store address).
pub fn paced_request(url: &str) -> (r: bool)
    ensures
        r == paced(url@),
{
    contains_chars(&chars_of(url), &chars_of("store.steampowered.com"))
}

} // verus!
