//! Store page links: reading the app id out of a pasted link, the canonical
//! link, and the title a link's slug spells.

use vstd::prelude::*;
use crate::ext::{app_name_in_details, is_regex_digit, json_app_name, opt_text, decimal_digit, string_of, url_encode, percent_encoded};
use crate::normalize::digit_at;
use crate::text::{
    chars_of, copy_range, in_set, matches_at,
    not_in, occurs_at, push_all, replace_char, skip_not_in, skip_while, trim, trim_by, trim_chars,
    trim_set,
};

verus! {

pub open spec fn digit_pred() -> spec_fn(char) -> bool {
    |c: char| decimal_digit(c)
}

/// The pattern `store\.steampowered\.com/app/\d` matches at `p`.
pub open spec fn app_link_at(s: Seq<char>, p: int) -> bool {
    occurs_at(s, p, "store.steampowered.com/app/"@) && digit_at(
        s,
        p + "store.steampowered.com/app/"@.len(),
    )
}

/// The first index at or after `p` where a store app link starts.
pub open spec fn first_app_link(s: Seq<char>, p: int) -> Option<int>
    decreases s.len() + 1 - p,
{
    if p < 0 || p > s.len() {
        None
    } else if app_link_at(s, p) {
        Some(p)
    } else {
        first_app_link(s, p + 1)
    }
}

/// Where the app id of the link at `p` ends.
pub open spec fn app_id_end(s: Seq<char>, p: int) -> int {
    skip_while(s, p + "store.steampowered.com/app/"@.len(), digit_pred())
}

/// The app id of the link at `p`: the digits after `/app/`.
pub open spec fn link_app_id(s: Seq<char>, p: int) -> Seq<char> {
    s.subrange(p + "store.steampowered.com/app/"@.len(), app_id_end(s, p))
}

/// The slug of the link at `p`: what follows `/` after the id up to `?` or
/// `#`, without leading or trailing `/`; empty where no `/` follows the id.
pub open spec fn link_slug(s: Seq<char>, p: int) -> Seq<char> {
    let e = app_id_end(s, p);
    if e < s.len() && s[e] == '/' {
        trim_by(s.subrange(e + 1, skip_while(s, e + 1, not_in(seq!['?', '#']))), in_set(seq!['/']))
    } else {
        seq![]
    }
}

/// The canonical store link for an app id and slug.
pub open spec fn canonical_link(app_id: Seq<char>, slug: Seq<char>) -> Seq<char> {
    if slug.len() == 0 {
        "https://store.steampowered.com/app/"@ + app_id + seq!['/']
    } else {
        "https://store.steampowered.com/app/"@ + app_id + seq!['/'] + slug + seq!['/']
    }
}

/// The message for a pasted link that is not a store app page.
pub open spec fn bad_link_message() -> Seq<char> {
    "链接必须是 Steam 游戏本体页面，例如 https://store.steampowered.com/app/1601740/Corpse_Keeper/"@
}

pub proof fn lemma_first_app_link(s: Seq<char>, p: int)
    requires
        0 <= p,
    ensures
        first_app_link(s, p) matches Some(k) ==> p <= k <= s.len() && app_link_at(s, k),
    decreases s.len() + 1 - p,
{
    if p <= s.len() && !app_link_at(s, p) {
        lemma_first_app_link(s, p + 1);
    }
}

fn find_app_link(s: &Vec<char>, lit: &Vec<char>) -> (r: Option<usize>)
    requires
        lit@ == "store.steampowered.com/app/"@,
    ensures
        crate::text::opt_int(r) == first_app_link(s@, 0),
{
    let mut p: usize = 0;
    while p <= s.len()
        invariant
            p <= s.len() + 1,
            lit@ == "store.steampowered.com/app/"@,
            first_app_link(s@, p as int) == first_app_link(s@, 0),
        decreases s.len() + 1 - p,
    {
        if matches_at(s, p, lit) && p + lit.len() < s.len() && is_regex_digit(s[p + lit.len()]) {
            return Some(p);
        }
        if p == s.len() {
            assert(first_app_link(s@, p + 1) is None);
            return None;
        }
        p = p + 1;
    }
    None
}

/// Reads the app id out of a pasted store link and gives the canonical link:
/// the first `store.steampowered.com/app/<digits>` in the trimmed text, with
/// the slug that follows it, if any.
pub fn normalize_steam_app_url(url: &str) -> (r: Result<(String, String), String>)
    ensures
        ({
            let s = trim(url@);
            match first_app_link(s, 0) {
                Some(p) => r matches Ok((id, link)) && id@ == link_app_id(s, p) && link@
                    == canonical_link(link_app_id(s, p), link_slug(s, p)),
                None => r matches Err(m) && m@ == bad_link_message(),
            }
        }),
{
    let s = trim_chars(&chars_of(url));
    let lit = chars_of("store.steampowered.com/app/");
    let found = find_app_link(&s, &lit);
    match found {
        None => Err(string_of(&chars_of("链接必须是 Steam 游戏本体页面，例如 https://store.steampowered.com/app/1601740/Corpse_Keeper/"))),
        Some(p) => {
            proof {
                lemma_first_app_link(s@, 0);
            }
            let start: usize = p + lit.len();
            let mut e: usize = start;
            while e < s.len() && is_regex_digit(s[e])
                invariant
                    start <= e <= s.len(),
                    skip_while(s@, e as int, digit_pred()) == skip_while(
                        s@,
                        start as int,
                        digit_pred(),
                    ),
                decreases s.len() - e,
            {
                e = e + 1;
            }
            let id = copy_range(&s, start, e);
            let mut slug: Vec<char> = Vec::new();
            if e < s.len() && s[e] == '/' {
                let mut stops: Vec<char> = Vec::new();
                stops.push('?');
                stops.push('#');
                assert(stops@ =~= seq!['?', '#']);
                let q = skip_not_in(&s, e + 1, &stops);
                let raw = copy_range(&s, e + 1, q);
                let mut slash: Vec<char> = Vec::new();
                slash.push('/');
                assert(slash@ =~= seq!['/']);
                slug = trim_set(&raw, &slash);
            }
            assert(id@ == link_app_id(s@, p as int));
            assert(slug@ == link_slug(s@, p as int));
            let mut link = chars_of("https://store.steampowered.com/app/");
            push_all(&mut link, &id);
            link.push('/');
            if slug.len() > 0 {
                push_all(&mut link, &slug);
                link.push('/');
            }
            assert(link@ =~= canonical_link(id@, slug@));
            Ok((string_of(&id), string_of(&link)))
        },
    }
}

} // verus!

verus! {

/// The literal `/app/<app_id>/` that precedes a slug.
pub open spec fn app_path(app_id: Seq<char>) -> Seq<char> {
    "/app/"@ + app_id + seq!['/']
}

pub open spec fn slug_stop(c: char) -> bool {
    c == '/' || c == '?' || c == '#'
}

/// The pattern `/app/<app_id>/([^/?#]+)` matches at `p`.
pub open spec fn slug_at(s: Seq<char>, lit: Seq<char>, p: int) -> bool {
    occurs_at(s, p, lit) && p + lit.len() < s.len() && !slug_stop(s[p + lit.len()])
}

pub open spec fn first_slug(s: Seq<char>, lit: Seq<char>, p: int) -> Option<int>
    decreases s.len() + 1 - p,
{
    if p < 0 || p > s.len() {
        None
    } else if slug_at(s, lit, p) {
        Some(p)
    } else {
        first_slug(s, lit, p + 1)
    }
}

/// The title that a store link's slug spells for an app id: the first slug
/// after `/app/<app_id>/`, trimmed of `_`, `-`, `/` and spaces, with `_` and
/// `-` read as spaces; `Steam App <app_id>` where there is none.
pub open spec fn slug_title(url: Seq<char>, app_id: Seq<char>) -> Seq<char> {
    let lit = app_path(app_id);
    let fallback = "Steam App "@ + app_id;
    match first_slug(url, lit, 0) {
        Some(p) => {
            let q = p + lit.len();
            let raw = url.subrange(q, skip_while(url, q, not_in(seq!['/', '?', '#'])));
            let t = trim_by(raw, in_set(seq!['_', '-', '/', ' ']));
            if t.len() > 0 {
                t.map_values(|c: char| if c == '_' || c == '-' { ' ' } else { c })
            } else {
                fallback
            }
        },
        None => fallback,
    }
}

fn find_slug(s: &Vec<char>, lit: &Vec<char>) -> (r: Option<usize>)
    ensures
        crate::text::opt_int(r) == first_slug(s@, lit@, 0),
{
    let mut p: usize = 0;
    while p <= s.len()
        invariant
            p <= s.len() + 1,
            first_slug(s@, lit@, p as int) == first_slug(s@, lit@, 0),
        decreases s.len() + 1 - p,
    {
        if matches_at(s, p, lit) && p + lit.len() < s.len() {
            let c = s[p + lit.len()];
            if !(c == '/' || c == '?' || c == '#') {
                return Some(p);
            }
        }
        if p == s.len() {
            assert(first_slug(s@, lit@, p + 1) is None);
            return None;
        }
        p = p + 1;
    }
    None
}

proof fn lemma_first_slug(s: Seq<char>, lit: Seq<char>, p: int)
    requires
        0 <= p,
    ensures
        first_slug(s, lit, p) matches Some(k) ==> p <= k && slug_at(s, lit, k),
    decreases s.len() + 1 - p,
{
    if p <= s.len() && !slug_at(s, lit, p) {
        lemma_first_slug(s, lit, p + 1);
    }
}

/// The title that a store link's slug spells, or `Steam App <app_id>`.
pub fn title_from_slug(url: &str, app_id: &str) -> (r: String)
    ensures
        r@ == slug_title(url@, app_id@),
{
    let s = chars_of(url);
    let id = chars_of(app_id);
    let mut lit = chars_of("/app/");
    push_all(&mut lit, &id);
    lit.push('/');
    assert(lit@ =~= app_path(app_id@));
    proof {
        lemma_first_slug(s@, lit@, 0);
    }
    let mut fallback = chars_of("Steam App ");
    push_all(&mut fallback, &id);
    match find_slug(&s, &lit) {
        Some(p) => {
            assert(first_slug(s@, lit@, 0) == Some(p as int));
            assert(slug_at(s@, lit@, p as int));
            assert(p + lit@.len() < s@.len());
            assert(p + lit.len() < s.len());
            let q: usize = p + lit.len();
            let mut stops: Vec<char> = Vec::new();
            stops.push('/');
            stops.push('?');
            stops.push('#');
            assert(stops@ =~= seq!['/', '?', '#']);
            let e = skip_not_in(&s, q, &stops);
            let raw = copy_range(&s, q, e);
            let mut trims: Vec<char> = Vec::new();
            trims.push('_');
            trims.push('-');
            trims.push('/');
            trims.push(' ');
            assert(trims@ =~= seq!['_', '-', '/', ' ']);
            let t = trim_set(&raw, &trims);
            if t.len() > 0 {
                let a = replace_char(&t, '_', ' ');
                let b = replace_char(&a, '-', ' ');
                assert(b@ =~= t@.map_values(|c: char| if c == '_' || c == '-' { ' ' } else { c }));
                string_of(&b)
            } else {
                string_of(&fallback)
            }
        },
        None => string_of(&fallback),
    }
}

/// The store API address for an app's basic details, in English.
pub open spec fn app_details_address(app_id: Seq<char>) -> Seq<char> {
    "https://store.steampowered.com/api/appdetails?appids="@ + percent_encoded(
        vstd::utf8::encode_utf8(app_id),
    ) + "&filters=basic&l=english"@
}

/// The store API address for an app's basic details.
pub fn app_details_url(app_id: &str) -> (r: String)
    ensures
        r@ == app_details_address(app_id@),
{
    let mut v = chars_of("https://store.steampowered.com/api/appdetails?appids=");
    let enc = url_encode(app_id);
    push_all(&mut v, &chars_of(enc.as_str()));
    push_all(&mut v, &chars_of("&filters=basic&l=english"));
    string_of(&v)
}

/// The title for an app from the name that the store's details give
/// (`None` where they give none): the trimmed name where it is not blank,
/// else the title its link's slug spells.
pub open spec fn named_or_slug(name: Option<Seq<char>>, app_id: Seq<char>, url: Seq<char>) -> Seq<char> {
    match name {
        Some(n) => if trim(n).len() > 0 {
            trim(n)
        } else {
            slug_title(url, app_id)
        },
        None => slug_title(url, app_id),
    }
}

/// The title for an app: the trimmed `name` of the store's details response
/// where it is there and not blank, else the title its link's slug spells.
pub open spec fn app_title(details: Option<Seq<char>>, app_id: Seq<char>, url: Seq<char>) -> Seq<char> {
    match details {
        Some(text) => named_or_slug(app_name_in_details(text, app_id), app_id, url),
        None => slug_title(url, app_id),
    }
}

/// The title for an app from the name read out of the store's details.
pub fn title_or_slug(name: Option<String>, app_id: &str, url: &str) -> (r: String)
    ensures
        r@ == named_or_slug(opt_text(name), app_id@, url@),
{
    if let Some(n) = name {
        let t = trim_chars(&chars_of(n.as_str()));
        if t.len() > 0 {
            return string_of(&t);
        }
    }
    title_from_slug(url, app_id)
}

/// The title for an app from the store's details response (`None` where it
/// could not be fetched), falling back to the link's slug.
pub fn fetch_app_title(details: Option<String>, app_id: &str, url: &str) -> (r: String)
    ensures
        r@ == app_title(opt_text(details), app_id@, url@),
{
    match details {
        Some(text) => title_or_slug(json_app_name(text.as_str(), app_id), app_id, url),
        None => title_from_slug(url, app_id),
    }
}

} // verus!
