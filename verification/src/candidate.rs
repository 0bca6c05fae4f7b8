//! Store candidates for a name, and the ordered, bounded lists of them.

use vstd::prelude::*;
use crate::ext::string_of;
use crate::normalize::{normalize_chars, normalized};
use crate::text::{chars_of, trim, trim_chars};

verus! {

/// One store page that may be the game a name refers to.
#[derive(Clone, Debug)]
pub struct Candidate {
    pub app_id: String,
    pub title: String,
    pub url: String,
    pub score: i32,
    pub confidence: String,
    pub kind: String,
}

impl Candidate {
    /// A copy of this candidate with equal fields.
    pub fn duplicate(&self) -> (r: Candidate)
        ensures
            r == *self,
    {
        Candidate {
            app_id: self.app_id.clone(),
            title: self.title.clone(),
            url: self.url.clone(),
            score: self.score,
            confidence: self.confidence.clone(),
            kind: self.kind.clone(),
        }
    }
}

/// How many candidates a list keeps.
pub const MAX_CANDIDATES: usize = 8;

/// `s` with `x` placed before the first element that scores lower than `x`.
pub open spec fn insert_by_score(s: Seq<Candidate>, x: Candidate) -> Seq<Candidate>
    decreases s.len(),
{
    if s.len() == 0 {
        seq![x]
    } else if s[0].score >= x.score {
        seq![s[0]] + insert_by_score(s.drop_first(), x)
    } else {
        seq![x] + s
    }
}

/// `s` ordered by descending score, candidates of equal score in their
/// original order: what a stable sort by descending score gives.
pub open spec fn sort_by_score(s: Seq<Candidate>) -> Seq<Candidate>
    decreases s.len(),
{
    if s.len() == 0 {
        seq![]
    } else {
        insert_by_score(sort_by_score(s.drop_last()), s.last())
    }
}

/// The best `MAX_CANDIDATES` of `s` by descending score, stable.
pub open spec fn top_candidates(s: Seq<Candidate>) -> Seq<Candidate> {
    let t = sort_by_score(s);
    if t.len() <= MAX_CANDIDATES {
        t
    } else {
        t.take(MAX_CANDIDATES as int)
    }
}

/// The index at which `insert_by_score` places its element.
pub open spec fn insert_position(s: Seq<Candidate>, x: Candidate, i: int) -> int
    decreases s.len() - i,
{
    if 0 <= i < s.len() && s[i].score >= x.score {
        insert_position(s, x, i + 1)
    } else {
        i
    }
}

pub proof fn lemma_insert_by_score(s: Seq<Candidate>, x: Candidate)
    ensures
        0 <= insert_position(s, x, 0) <= s.len(),
        insert_by_score(s, x) == s.insert(insert_position(s, x, 0), x),
    decreases s.len(),
{
    if s.len() > 0 && s[0].score >= x.score {
        lemma_insert_by_score(s.drop_first(), x);
        lemma_insert_position_shift(s, x, 0);
        let k = insert_position(s.drop_first(), x, 0);
        assert(seq![s[0]] + s.drop_first().insert(k, x) =~= s.insert(k + 1, x));
    } else if s.len() > 0 {
        assert(seq![x] + s =~= s.insert(0, x));
    } else {
        assert(seq![x] =~= s.insert(0, x));
    }
}

pub proof fn lemma_insert_position_shift(s: Seq<Candidate>, x: Candidate, i: int)
    requires
        0 <= i < s.len(),
    ensures
        insert_position(s, x, i + 1) == insert_position(s.drop_first(), x, i) + 1,
        i <= insert_position(s.drop_first(), x, i) <= s.len() - 1,
    decreases s.len() - i,
{
    if i + 1 < s.len() && s[i + 1].score >= x.score {
        lemma_insert_position_shift(s, x, i + 1);
    }
}

/// Places `x` into `v` before the first element that scores lower.
fn insert_sorted(v: &mut Vec<Candidate>, x: Candidate)
    ensures
        final(v)@ == insert_by_score(old(v)@, x),
{
    proof {
        lemma_insert_by_score(v@, x);
    }
    let mut k: usize = 0;
    while k < v.len() && v[k].score >= x.score
        invariant
            k <= v.len(),
            insert_position(v@, x, k as int) == insert_position(v@, x, 0),
        decreases v.len() - k,
    {
        k = k + 1;
    }
    v.insert(k, x);
}

/// Orders `v` by descending score, keeping the order of equal scores.
pub fn sort_candidates(v: &Vec<Candidate>) -> (r: Vec<Candidate>)
    ensures
        r@ == sort_by_score(v@),
{
    let mut r: Vec<Candidate> = Vec::new();
    let mut i: usize = 0;
    while i < v.len()
        invariant
            i <= v.len(),
            r@ == sort_by_score(v@.take(i as int)),
        decreases v.len() - i,
    {
        assert(v@.take(i + 1).drop_last() =~= v@.take(i as int));
        insert_sorted(&mut r, v[i].duplicate());
        i = i + 1;
    }
    assert(v@.take(i as int) =~= v@);
    r
}

/// The best `MAX_CANDIDATES` of `v` by descending score, stable.
pub fn top_of(v: &Vec<Candidate>) -> (r: Vec<Candidate>)
    ensures
        r@ == top_candidates(v@),
{
    let mut r = sort_candidates(v);
    r.truncate(MAX_CANDIDATES);
    r
}

} // verus!

verus! {

/// The first index at or after `i` whose candidate has the store id `id`.
pub open spec fn find_app(cs: Seq<Candidate>, id: Seq<char>, i: int) -> Option<int>
    decreases cs.len() - i,
{
    if i < 0 || i >= cs.len() {
        None
    } else if cs[i].app_id@ == id {
        Some(i)
    } else {
        find_app(cs, id, i + 1)
    }
}

pub proof fn lemma_find_app(cs: Seq<Candidate>, id: Seq<char>, i: int)
    requires
        0 <= i,
    ensures
        find_app(cs, id, i) matches Some(k) ==> i <= k < cs.len() && cs[k].app_id@ == id,
        find_app(cs, id, i) matches Some(k) ==> forall|m: int|
            i <= m < k ==> (#[trigger] cs[m]).app_id@ != id,
        find_app(cs, id, i) is None ==> forall|m: int|
            i <= m < cs.len() ==> (#[trigger] cs[m]).app_id@ != id,
    decreases cs.len() - i,
{
    if i < cs.len() && cs[i].app_id@ != id {
        lemma_find_app(cs, id, i + 1);
    }
}

/// Adds one candidate: it replaces the first candidate with the same store id
/// where it scores strictly higher, is dropped where it does not, and is
/// appended where no candidate has its id.
pub open spec fn merge_one(cs: Seq<Candidate>, c: Candidate) -> Seq<Candidate> {
    match find_app(cs, c.app_id@, 0) {
        Some(i) => if c.score > cs[i].score {
            cs.update(i, c)
        } else {
            cs
        },
        None => cs.push(c),
    }
}

/// Adds `news` one by one, in order.
pub open spec fn merge_all(cs: Seq<Candidate>, news: Seq<Candidate>) -> Seq<Candidate>
    decreases news.len(),
{
    if news.len() == 0 {
        cs
    } else {
        merge_one(merge_all(cs, news.drop_last()), news.last())
    }
}

/// The index of the first candidate in `cs` with the store id `id`.
fn position_of_app(cs: &Vec<Candidate>, id: &String) -> (r: Option<usize>)
    ensures
        opt_index(r) == find_app(cs@, id@, 0),
{
    proof {
        lemma_find_app(cs@, id@, 0);
    }
    let mut i: usize = 0;
    while i < cs.len()
        invariant
            i <= cs.len(),
            find_app(cs@, id@, i as int) == find_app(cs@, id@, 0),
        decreases cs.len() - i,
    {
        if cs[i].app_id == *id {
            return Some(i);
        }
        i = i + 1;
    }
    None
}

pub open spec fn opt_index(r: Option<usize>) -> Option<int> {
    match r {
        Some(k) => Some(k as int),
        None => None,
    }
}

/// Adds one candidate to `cs` as `merge_one` says.
pub fn merge_candidate(cs: &mut Vec<Candidate>, c: Candidate)
    ensures
        final(cs)@ == merge_one(old(cs)@, c),
{
    proof {
        lemma_find_app(cs@, c.app_id@, 0);
    }
    match position_of_app(cs, &c.app_id) {
        Some(i) => {
            if c.score > cs[i].score {
                cs.set(i, c);
            }
        },
        None => {
            cs.push(c);
        },
    }
}

/// Adds `new_candidates` to `candidates`, then keeps the best eight by
/// descending score; a candidate for a store id already listed replaces the
/// listed one only where it scores higher.
pub fn merge_candidates(candidates: &mut Vec<Candidate>, new_candidates: Vec<Candidate>)
    ensures
        final(candidates)@ == top_candidates(merge_all(old(candidates)@, new_candidates@)),
{
    let ghost start = candidates@;
    let mut i: usize = 0;
    while i < new_candidates.len()
        invariant
            i <= new_candidates.len(),
            candidates@ == merge_all(start, new_candidates@.take(i as int)),
        decreases new_candidates.len() - i,
    {
        assert(new_candidates@.take(i + 1).drop_last() =~= new_candidates@.take(i as int));
        merge_candidate(candidates, new_candidates[i].duplicate());
        i = i + 1;
    }
    assert(new_candidates@.take(i as int) =~= new_candidates@);
    let top = top_of(candidates);
    *candidates = top;
}

/// The texts of a list of strings.
pub open spec fn texts(vs: Seq<String>) -> Seq<Seq<char>> {
    vs.map_values(|s: String| s@)
}

/// Adds `value` trimmed, unless it is empty or a listed value has the same
/// normalised form.
pub open spec fn push_unique_spec(values: Seq<Seq<char>>, value: Seq<char>) -> Seq<Seq<char>> {
    let v = trim(value);
    if v.len() == 0 {
        values
    } else if exists|i: int| 0 <= i < values.len() && normalized(#[trigger] values[i]) == normalized(v) {
        values
    } else {
        values.push(v)
    }
}

/// Adds a query variant: trimmed, and only where no listed variant has the
/// same normalised form.
pub fn push_unique(values: &mut Vec<String>, value: String)
    ensures
        texts(final(values)@) == push_unique_spec(texts(old(values)@), value@),
{
    let v = trim_chars(&chars_of(value.as_str()));
    if v.len() == 0 {
        return;
    }
    let n = normalize_chars(&v);
    let mut i: usize = 0;
    while i < values.len()
        invariant
            i <= values.len(),
            n@ == normalized(v@),
            v@ == trim(value@),
            forall|k: int| 0 <= k < i ==> normalized(#[trigger] texts(values@)[k]) != normalized(v@),
        decreases values.len() - i,
    {
        let item = normalize_chars(&chars_of(values[i].as_str()));
        if crate::text::same_chars(&item, &n) {
            assert(texts(values@)[i as int] == values@[i as int]@);
            return;
        }
        i = i + 1;
    }
    let s = string_of(&v);
    values.push(s);
    assert(texts(values@) =~= texts(old(values)@).push(v@));
}

/// The queries tried for a name: its cleaned form, then the name itself where
/// that normalises differently.
pub open spec fn query_variants(original: Seq<char>, cleaned: Seq<char>) -> Seq<Seq<char>> {
    push_unique_spec(push_unique_spec(seq![], cleaned), original)
}

/// The queries tried for a name.
pub fn initial_query_variants(original: &str, cleaned: &str) -> (r: Vec<String>)
    ensures
        texts(r@) == query_variants(original@, cleaned@),
{
    let mut queries: Vec<String> = Vec::new();
    assert(texts(queries@) =~= seq![]);
    push_unique(&mut queries, cleaned.to_owned());
    push_unique(&mut queries, original.to_owned());
    queries
}

} // verus!
