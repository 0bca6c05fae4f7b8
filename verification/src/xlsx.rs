//! Reading the first column of the first worksheet out of the XML parts of
//! an `.xlsx` workbook.

use vstd::prelude::*;
use crate::candidate::texts;
use crate::ext::{decode_html_entities, html_decoded, string_of, zip_entry, zip_entry_text, entry_view};
use crate::normalize::word_boundary;
use crate::text::{
    chars_of, ci_find_from, ci_first, ci_matches_at, ci_occurs_at, copy_range, lemma_ci_first,
    lemma_skip_while_bounds, not_in, occurs_at, matches_at, push_all, skip_not_in, skip_while,
    trim, trim_chars, all_ascii_digits, parse_unsigned, parse_decimal, decimal, push_decimal,
};

verus! {

/// Where the content of an element that opens at `p` starts: after `open`
/// (followed by a word boundary where `bound` holds) and, where `attrs`
/// holds, after `[^>]*>`.
pub open spec fn content_start(x: Seq<char>, p: int, open: Seq<char>, attrs: bool, bound: bool) -> Option<int> {
    if ci_occurs_at(x, p, open) && (!bound || word_boundary(x, p + open.len())) {
        if attrs {
            let g = skip_while(x, p + open.len(), not_in(seq!['>']));
            if g < x.len() {
                Some(g + 1)
            } else {
                None
            }
        } else {
            Some(p + open.len())
        }
    } else {
        None
    }
}

/// The match of `(?is)<open>(.*?)<close>` (with `[^>]*>` after `open` where
/// `attrs` holds) that starts at `p`: its start, content start and content end.
pub open spec fn elem_at(x: Seq<char>, p: int, open: Seq<char>, close: Seq<char>, attrs: bool, bound: bool) -> Option<(int, int, int)> {
    match content_start(x, p, open, attrs, bound) {
        Some(c) => match ci_first(x, close, c) {
            Some(e) => Some((p, c, e)),
            None => None,
        },
        None => None,
    }
}

pub proof fn lemma_elem_at(x: Seq<char>, p: int, open: Seq<char>, close: Seq<char>, attrs: bool, bound: bool)
    requires
        0 <= p,
    ensures
        elem_at(x, p, open, close, attrs, bound) matches Some((s, c, e)) ==> s == p && p + open.len() <= c
            <= e && e + close.len() <= x.len() && (attrs ==> p + open.len() + 1 <= c),
{
    if ci_occurs_at(x, p, open) {
        if attrs {
            lemma_skip_while_bounds(x, p + open.len(), not_in(seq!['>']));
        }
        match content_start(x, p, open, attrs, bound) {
            Some(c) => {
                lemma_ci_first(x, close, c);
            },
            None => {},
        }
    }
}

/// The matches of the element pattern in `x[p..]`, left to right, without overlap.
pub open spec fn elems_from(x: Seq<char>, p: int, open: Seq<char>, close: Seq<char>, attrs: bool, bound: bool) -> Seq<(int, int, int)>
    decreases x.len() + 1 - p,
{
    if p < 0 || p > x.len() || open.len() == 0 {
        seq![]
    } else {
        match elem_at(x, p, open, close, attrs, bound) {
            Some((s, c, e)) => {
                proof {
                    lemma_elem_at(x, p, open, close, attrs, bound);
                }
                seq![(s, c, e)] + elems_from(x, e + close.len(), open, close, attrs, bound)
            },
            None => elems_from(x, p + 1, open, close, attrs, bound),
        }
    }
}

pub proof fn lemma_elems_from(x: Seq<char>, p: int, open: Seq<char>, close: Seq<char>, attrs: bool, bound: bool)
    requires
        0 <= p,
    ensures
        forall|k: int|
            0 <= k < elems_from(x, p, open, close, attrs, bound).len() ==> {
                let m = #[trigger] elems_from(x, p, open, close, attrs, bound)[k];
                p <= m.0 && m.0 + open.len() <= m.1 <= m.2 && m.2 + close.len() <= x.len() && (attrs
                    ==> m.0 + open.len() + 1 <= m.1)
            },
    decreases x.len() + 1 - p,
{
    if p <= x.len() && open.len() > 0 {
        lemma_elem_at(x, p, open, close, attrs, bound);
        match elem_at(x, p, open, close, attrs, bound) {
            Some((s, c, e)) => {
                lemma_elems_from(x, e + close.len(), open, close, attrs, bound);
                let rest = elems_from(x, e + close.len(), open, close, attrs, bound);
                assert(elems_from(x, p, open, close, attrs, bound) == seq![(s, c, e)] + rest);
                assert forall|k: int| 0 <= k < elems_from(x, p, open, close, attrs, bound).len() implies {
                    let m = #[trigger] elems_from(x, p, open, close, attrs, bound)[k];
                    p <= m.0 && m.0 + open.len() <= m.1 <= m.2 && m.2 + close.len() <= x.len() && (attrs
                        ==> m.0 + open.len() + 1 <= m.1)
                } by {
                    if k > 0 {
                        assert(elems_from(x, p, open, close, attrs, bound)[k] == rest[k - 1]);
                    }
                }
            },
            None => {
                lemma_elems_from(x, p + 1, open, close, attrs, bound);
                assert(elems_from(x, p, open, close, attrs, bound) == elems_from(x, p + 1, open, close, attrs, bound));
            },
        }
    } else {
        assert(elems_from(x, p, open, close, attrs, bound).len() == 0);
    }
}

pub open spec fn usize_triples(v: Seq<(usize, usize, usize)>) -> Seq<(int, int, int)> {
    v.map_values(|t: (usize, usize, usize)| (t.0 as int, t.1 as int, t.2 as int))
}

fn boundary_at(b: &Vec<char>, i: usize) -> (r: bool)
    requires
        i <= b.len(),
    ensures
        r == word_boundary(b@, i as int),
{
    let before: bool = i > 0 && crate::ext::is_regex_word(b[i - 1]);
    let after: bool = i < b.len() && crate::ext::is_regex_word(b[i]);
    before != after
}

fn elem_at_exec(x: &Vec<char>, p: usize, open: &Vec<char>, close: &Vec<char>, attrs: bool, bound: bool) -> (r: Option<(usize, usize, usize)>)
    requires
        p <= x.len(),
    ensures
        match r {
            Some(t) => elem_at(x@, p as int, open@, close@, attrs, bound) == Some((t.0 as int, t.1 as int, t.2 as int)),
            None => elem_at(x@, p as int, open@, close@, attrs, bound) is None,
        },
{
    if !ci_matches_at(x, p, open) {
        return None;
    }
    if bound && !boundary_at(x, p + open.len()) {
        return None;
    }
    let c: usize;
    if attrs {
        let mut gt: Vec<char> = Vec::new();
        gt.push('>');
        assert(gt@ =~= seq!['>']);
        let g = skip_not_in(x, p + open.len(), &gt);
        if g >= x.len() {
            return None;
        }
        c = g + 1;
    } else {
        c = p + open.len();
    }
    match ci_find_from(x, close, c) {
        Some(e) => Some((p, c, e)),
        None => None,
    }
}

/// The matches of `(?is)<open>(.*?)<close>` in `x`, left to right.
pub fn find_elems(x: &Vec<char>, open: &Vec<char>, close: &Vec<char>, attrs: bool, bound: bool) -> (r: Vec<(usize, usize, usize)>)
    ensures
        usize_triples(r@) == elems_from(x@, 0, open@, close@, attrs, bound),
{
    let mut r: Vec<(usize, usize, usize)> = Vec::new();
    if open.len() == 0 {
        assert(usize_triples(r@) =~= seq![]);
        return r;
    }
    let mut p: usize = 0;
    while p <= x.len()
        invariant
            p <= x.len() + 1,
            open@.len() > 0,
            usize_triples(r@) + elems_from(x@, p as int, open@, close@, attrs, bound) == elems_from(x@, 0, open@, close@, attrs, bound),
        decreases x.len() + 1 - p,
    {
        let ghost p0 = p as int;
        proof {
            lemma_elem_at(x@, p0, open@, close@, attrs, bound);
        }
        match elem_at_exec(x, p, open, close, attrs, bound) {
            Some(t) => {
                let ghost before = r@;
                r.push(t);
                assert(usize_triples(r@) =~= usize_triples(before).push((t.0 as int, t.1 as int, t.2 as int)));
                p = t.2 + close.len();
            },
            None => {
                if p == x.len() {
                    assert(elems_from(x@, p0 + 1, open@, close@, attrs, bound) == Seq::<(int, int, int)>::empty());
                    assert(usize_triples(r@) =~= elems_from(x@, 0, open@, close@, attrs, bound));
                    return r;
                }
                p = p + 1;
            },
        }
    }
    assert(elems_from(x@, p as int, open@, close@, attrs, bound) == Seq::<(int, int, int)>::empty());
    assert(usize_triples(r@) =~= elems_from(x@, 0, open@, close@, attrs, bound));
    r
}

} // verus!

verus! {

/// The decoded contents of the matches `ms` in `x`, concatenated.
pub open spec fn joined_contents(x: Seq<char>, ms: Seq<(int, int, int)>) -> Seq<char>
    decreases ms.len(),
{
    if ms.len() == 0 {
        seq![]
    } else {
        joined_contents(x, ms.drop_last()) + html_decoded(x.subrange(ms.last().1, ms.last().2))
    }
}

/// The text of a shared string entry `m` (a whole `<si>...</si>` match): the
/// decoded contents of its `<t>` elements, concatenated.
pub open spec fn shared_value(m: Seq<char>) -> Seq<char> {
    joined_contents(m, elems_from(m, 0, "<t"@, "</t>"@, true, false))
}

/// The shared strings of a workbook's `sharedStrings.xml`, in order.
pub open spec fn shared_strings(xml: Seq<char>) -> Seq<Seq<char>> {
    elems_from(xml, 0, "<si>"@, "</si>"@, false, false).map_values(
        |m: (int, int, int)| shared_value(xml.subrange(m.0, m.2 + "</si>"@.len())),
    )
}

/// The decoded contents of the matches of `ms` in `x`, concatenated.
fn join_contents(x: &Vec<char>, ms: &Vec<(usize, usize, usize)>) -> (r: Vec<char>)
    requires
        forall|k: int| 0 <= k < ms@.len() ==> (#[trigger] ms@[k]).1 <= ms@[k].2 <= x@.len(),
    ensures
        r@ == joined_contents(x@, usize_triples(ms@)),
{
    let mut r: Vec<char> = Vec::new();
    let mut i: usize = 0;
    while i < ms.len()
        invariant
            i <= ms.len(),
            forall|k: int| 0 <= k < ms@.len() ==> (#[trigger] ms@[k]).1 <= ms@[k].2 <= x@.len(),
            r@ == joined_contents(x@, usize_triples(ms@).take(i as int)),
        decreases ms.len() - i,
    {
        assert(usize_triples(ms@).take(i + 1).drop_last() =~= usize_triples(ms@).take(i as int));
        let m = ms[i];
        let part = copy_range(x, m.1, m.2);
        let d = decode_html_entities(string_of(&part).as_str());
        push_all(&mut r, &chars_of(d.as_str()));
        i = i + 1;
    }
    assert(usize_triples(ms@).take(i as int) =~= usize_triples(ms@));
    r
}

/// The literals of the workbook patterns.
pub struct XmlLits {
    pub si_open: Vec<char>,
    pub si_close: Vec<char>,
    pub t_open: Vec<char>,
    pub t_close: Vec<char>,
    pub row_open: Vec<char>,
    pub row_close: Vec<char>,
    pub c_open: Vec<char>,
    pub c_close: Vec<char>,
    pub v_open: Vec<char>,
    pub v_close: Vec<char>,
    pub ref_attr: Vec<char>,
    pub type_attr: Vec<char>,
}

impl XmlLits {
    pub open spec fn wf(&self) -> bool {
        &&& self.si_open@ == "<si>"@
        &&& self.si_close@ == "</si>"@
        &&& self.t_open@ == "<t"@
        &&& self.t_close@ == "</t>"@
        &&& self.row_open@ == "<row"@
        &&& self.row_close@ == "</row>"@
        &&& self.c_open@ == "<c"@
        &&& self.c_close@ == "</c>"@
        &&& self.v_open@ == "<v>"@
        &&& self.v_close@ == "</v>"@
        &&& self.ref_attr@ == "r=\""@
        &&& self.type_attr@ == "t=\""@
    }

    pub fn new() -> (r: XmlLits)
        ensures
            r.wf(),
    {
        XmlLits {
            si_open: chars_of("<si>"),
            si_close: chars_of("</si>"),
            t_open: chars_of("<t"),
            t_close: chars_of("</t>"),
            row_open: chars_of("<row"),
            row_close: chars_of("</row>"),
            c_open: chars_of("<c"),
            c_close: chars_of("</c>"),
            v_open: chars_of("<v>"),
            v_close: chars_of("</v>"),
            ref_attr: chars_of("r=\""),
            type_attr: chars_of("t=\""),
        }
    }
}

/// The shared strings of a workbook's `sharedStrings.xml`.
pub fn read_shared_strings(xml: &Vec<char>, lits: &XmlLits) -> (r: Vec<Vec<char>>)
    requires
        lits.wf(),
    ensures
        r@.map_values(|v: Vec<char>| v@) == shared_strings(xml@),
{
    let sis = find_elems(xml, &lits.si_open, &lits.si_close, false, false);
    proof {
        lemma_elems_from(xml@, 0, "<si>"@, "</si>"@, false, false);
    }
    let ghost ev = usize_triples(sis@);
    let mut r: Vec<Vec<char>> = Vec::new();
    let mut i: usize = 0;
    while i < sis.len()
        invariant
            i <= sis.len(),
            lits.wf(),
            ev == usize_triples(sis@),
            ev == elems_from(xml@, 0, "<si>"@, "</si>"@, false, false),
            forall|k: int| 0 <= k < ev.len() ==> {
                let m = #[trigger] ev[k];
                0 <= m.0 && m.0 + "<si>"@.len() <= m.1 <= m.2 && m.2 + "</si>"@.len() <= xml@.len()
            },
            r@.map_values(|v: Vec<char>| v@) == shared_strings(xml@).take(i as int),
        decreases sis.len() - i,
    {
        let m = sis[i];
        let ghost mi = ev[i as int];
        assert(mi == (m.0 as int, m.1 as int, m.2 as int));
        assert(mi.2 + "</si>"@.len() <= xml@.len());
        assert(m.2 + lits.si_close@.len() <= xml@.len());
        assert(m.2 + lits.si_close.len() <= xml.len());
        let whole = copy_range(xml, m.0, m.2 + lits.si_close.len());
        let ts = find_elems(&whole, &lits.t_open, &lits.t_close, true, false);
        proof {
            lemma_elems_from(whole@, 0, "<t"@, "</t>"@, true, false);
            assert forall|k: int| 0 <= k < ts@.len() implies (#[trigger] ts@[k]).1 <= ts@[k].2 <= whole@.len() by {
                assert(usize_triples(ts@)[k] == (ts@[k].0 as int, ts@[k].1 as int, ts@[k].2 as int));
            }
        }
        let value = join_contents(&whole, &ts);
        let ghost before = r@;
        r.push(value);
        assert(r@.map_values(|v: Vec<char>| v@) =~= before.map_values(|v: Vec<char>| v@).push(value@));
        assert(shared_strings(xml@).take(i + 1) =~= shared_strings(xml@).take(i as int).push(shared_value(xml@.subrange(mi.0, mi.2 + "</si>"@.len()))));
        i = i + 1;
    }
    assert(shared_strings(xml@).take(i as int) =~= shared_strings(xml@));
    r
}

} // verus!

verus! {

/// The pattern `<lit>[^"]+"` (case-sensitive) matches at `p`.
pub open spec fn quoted_at(a: Seq<char>, p: int, lit: Seq<char>) -> bool {
    let q = skip_while(a, p + lit.len(), not_in(seq!['"']));
    occurs_at(a, p, lit) && q > p + lit.len() && q < a.len()
}

pub open spec fn first_quoted(a: Seq<char>, lit: Seq<char>, p: int) -> Option<int>
    decreases a.len() + 1 - p,
{
    if p < 0 || p > a.len() {
        None
    } else if quoted_at(a, p, lit) {
        Some(p)
    } else {
        first_quoted(a, lit, p + 1)
    }
}

/// What the first match of `<lit>([^"]+)"` in `a` captures.
pub open spec fn quoted_attr(a: Seq<char>, lit: Seq<char>) -> Option<Seq<char>> {
    match first_quoted(a, lit, 0) {
        Some(p) => Some(a.subrange(p + lit.len(), skip_while(a, p + lit.len(), not_in(seq!['"'])))),
        None => None,
    }
}

proof fn lemma_first_quoted(a: Seq<char>, lit: Seq<char>, p: int)
    requires
        0 <= p,
    ensures
        first_quoted(a, lit, p) matches Some(k) ==> p <= k && quoted_at(a, k, lit),
    decreases a.len() + 1 - p,
{
    if p <= a.len() && !quoted_at(a, p, lit) {
        lemma_first_quoted(a, lit, p + 1);
    }
}

fn quoted_attr_exec(a: &Vec<char>, lit: &Vec<char>) -> (r: Option<Vec<char>>)
    ensures
        match r {
            Some(v) => quoted_attr(a@, lit@) == Some(v@),
            None => quoted_attr(a@, lit@) is None,
        },
{
    let mut quote: Vec<char> = Vec::new();
    quote.push('"');
    assert(quote@ =~= seq!['"']);
    proof {
        lemma_first_quoted(a@, lit@, 0);
    }
    let mut p: usize = 0;
    while p <= a.len()
        invariant
            p <= a.len() + 1,
            quote@ == seq!['"'],
            first_quoted(a@, lit@, p as int) == first_quoted(a@, lit@, 0),
        decreases a.len() + 1 - p,
    {
        if matches_at(a, p, lit) {
            let s: usize = p + lit.len();
            let q = skip_not_in(a, s, &quote);
            if q > s && q < a.len() {
                return Some(copy_range(a, s, q));
            }
        }
        if p == a.len() {
            assert(first_quoted(a@, lit@, p + 1) is None);
            return None;
        }
        p = p + 1;
    }
    None
}

/// A cell reference in the first column: `A` followed by ASCII digits only.
pub open spec fn first_column_ref(r: Seq<char>) -> bool {
    r.len() > 0 && r[0] == 'A' && all_ascii_digits(r.drop_first())
}

/// The attributes of the cell match `m` in a row body.
pub open spec fn cell_attrs(rb: Seq<char>, m: (int, int, int)) -> Seq<char> {
    rb.subrange(m.0 + "<c"@.len(), m.1 - 1)
}

/// The body of the cell match `m` in a row body.
pub open spec fn cell_body(rb: Seq<char>, m: (int, int, int)) -> Seq<char> {
    rb.subrange(m.1, m.2)
}

/// The cell matches of a row body: `(?is)<c\b([^>]*)>(.*?)</c>`.
pub open spec fn row_cells(rb: Seq<char>) -> Seq<(int, int, int)> {
    elems_from(rb, 0, "<c"@, "</c>"@, true, true)
}

/// A cell match whose `r="..."` reference is in the first column.
pub open spec fn in_first_column(rb: Seq<char>, m: (int, int, int)) -> bool {
    quoted_attr(cell_attrs(rb, m), "r=\""@) matches Some(r) && first_column_ref(r)
}

/// The first cell of `cells` (from index `i`) that is in the first column.
pub open spec fn first_column_cell(rb: Seq<char>, cells: Seq<(int, int, int)>, i: int) -> Option<(int, int, int)>
    decreases cells.len() - i,
{
    if i < 0 || i >= cells.len() {
        None
    } else if in_first_column(rb, cells[i]) {
        Some(cells[i])
    } else {
        first_column_cell(rb, cells, i + 1)
    }
}

/// The decoded content of the first match of an element pattern in `b`, or nothing.
pub open spec fn first_content(b: Seq<char>, open: Seq<char>, close: Seq<char>, attrs: bool) -> Seq<char> {
    let ms = elems_from(b, 0, open, close, attrs, false);
    if ms.len() > 0 {
        html_decoded(b.subrange(ms[0].1, ms[0].2))
    } else {
        seq![]
    }
}

/// The text of a cell: an inline string's first `<t>`, else its first `<v>`,
/// read as an index into the shared strings where the cell type is `s`.
pub open spec fn cell_value(rb: Seq<char>, m: (int, int, int), shared: Seq<Seq<char>>) -> Seq<char> {
    let attrs = cell_attrs(rb, m);
    let body = cell_body(rb, m);
    let ty = match quoted_attr(attrs, "t=\""@) {
        Some(t) => t,
        None => seq![],
    };
    if ty == "inlineStr"@ {
        first_content(body, "<t"@, "</t>"@, true)
    } else {
        let raw = first_content(body, "<v>"@, "</v>"@, false);
        if ty == "s"@ {
            match parse_unsigned(raw, usize::MAX as int) {
                Some(i) => if i < shared.len() {
                    shared[i]
                } else {
                    seq![]
                },
                None => seq![],
            }
        } else {
            raw
        }
    }
}

/// The name a row gives: the trimmed text of its first first-column cell,
/// where there is one and it is not blank.
pub open spec fn row_name(rb: Seq<char>, shared: Seq<Seq<char>>) -> Option<Seq<char>> {
    match first_column_cell(rb, row_cells(rb), 0) {
        Some(m) => {
            let v = trim(cell_value(rb, m, shared));
            if v.len() > 0 {
                Some(v)
            } else {
                None
            }
        },
        None => None,
    }
}

/// The names that the rows `rows` of a worksheet give, in order.
pub open spec fn rows_names(sheet: Seq<char>, rows: Seq<(int, int, int)>, shared: Seq<Seq<char>>) -> Seq<Seq<char>>
    decreases rows.len(),
{
    if rows.len() == 0 {
        seq![]
    } else {
        let m = rows.last();
        rows_names(sheet, rows.drop_last(), shared) + match row_name(sheet.subrange(m.1, m.2), shared) {
            Some(v) => seq![v],
            None => seq![],
        }
    }
}

/// The names in a worksheet: for each `<row>`, its first-column cell's text.
pub open spec fn sheet_names(sheet: Seq<char>, shared: Seq<Seq<char>>) -> Seq<Seq<char>> {
    rows_names(sheet, elems_from(sheet, 0, "<row"@, "</row>"@, true, false), shared)
}

} // verus!

verus! {

fn first_content_exec(b: &Vec<char>, open: &Vec<char>, close: &Vec<char>, attrs: bool) -> (r: Vec<char>)
    ensures
        r@ == first_content(b@, open@, close@, attrs),
{
    let ms = find_elems(b, open, close, attrs, false);
    proof {
        lemma_elems_from(b@, 0, open@, close@, attrs, false);
    }
    if ms.len() > 0 {
        let m = ms[0];
        assert(usize_triples(ms@)[0] == (m.0 as int, m.1 as int, m.2 as int));
        let part = copy_range(b, m.1, m.2);
        let d = decode_html_entities(string_of(&part).as_str());
        chars_of(d.as_str())
    } else {
        Vec::new()
    }
}

fn cell_value_exec(rb: &Vec<char>, m: (usize, usize, usize), shared: &Vec<Vec<char>>, lits: &XmlLits) -> (r: Vec<char>)
    requires
        lits.wf(),
        m.0 + "<c"@.len() <= m.1 - 1,
        1 <= m.1 <= m.2 <= rb@.len(),
    ensures
        r@ == cell_value(rb@, (m.0 as int, m.1 as int, m.2 as int), shared@.map_values(|v: Vec<char>| v@)),
{
    let ghost sh = shared@.map_values(|v: Vec<char>| v@);
    let attrs = copy_range(rb, m.0 + lits.c_open.len(), m.1 - 1);
    let body = copy_range(rb, m.1, m.2);
    let ty = match quoted_attr_exec(&attrs, &lits.type_attr) {
        Some(t) => t,
        None => Vec::new(),
    };
    if crate::text::same_chars(&ty, &chars_of("inlineStr")) {
        return first_content_exec(&body, &lits.t_open, &lits.t_close, true);
    }
    let raw = first_content_exec(&body, &lits.v_open, &lits.v_close, false);
    if crate::text::same_chars(&ty, &chars_of("s")) {
        match parse_decimal(&raw, usize::MAX as u64) {
            Some(i) => {
                if i < shared.len() as u64 {
                    let k: usize = i as usize;
                    assert(sh[k as int] == shared@[k as int]@);
                    copy_range(&shared[k], 0, shared[k].len())
                } else {
                    Vec::new()
                }
            },
            None => Vec::new(),
        }
    } else {
        raw
    }
}

fn row_name_exec(rb: &Vec<char>, shared: &Vec<Vec<char>>, lits: &XmlLits) -> (r: Option<Vec<char>>)
    requires
        lits.wf(),
    ensures
        match r {
            Some(v) => row_name(rb@, shared@.map_values(|v: Vec<char>| v@)) == Some(v@),
            None => row_name(rb@, shared@.map_values(|v: Vec<char>| v@)) is None,
        },
{
    let cells = find_elems(rb, &lits.c_open, &lits.c_close, true, true);
    let ghost cv = usize_triples(cells@);
    proof {
        lemma_elems_from(rb@, 0, "<c"@, "</c>"@, true, true);
    }
    let mut i: usize = 0;
    while i < cells.len()
        invariant
            i <= cells.len(),
            lits.wf(),
            cv == usize_triples(cells@),
            cv == row_cells(rb@),
            forall|k: int| 0 <= k < cv.len() ==> {
                let m = #[trigger] cv[k];
                0 <= m.0 && m.0 + "<c"@.len() + 1 <= m.1 <= m.2 && m.2 + "</c>"@.len() <= rb@.len()
            },
            first_column_cell(rb@, cv, i as int) == first_column_cell(rb@, cv, 0),
        decreases cells.len() - i,
    {
        let m = cells[i];
        assert(cv[i as int] == (m.0 as int, m.1 as int, m.2 as int));
        let attrs = copy_range(rb, m.0 + lits.c_open.len(), m.1 - 1);
        let in_first = match quoted_attr_exec(&attrs, &lits.ref_attr) {
            Some(r) => {
                let mut ok = r.len() > 0 && r[0] == 'A';
                let mut k: usize = 1;
                while ok && k < r.len()
                    invariant
                        1 <= k,
                        ok ==> k <= r.len(),
                        ok ==> r.len() > 0 && r@[0] == 'A' && forall|j: int| 1 <= j < k ==> crate::text::is_ascii_digit(#[trigger] r@[j]),
                        !ok ==> !first_column_ref(r@),
                    decreases r.len() - k,
                {
                    if !('0' <= r[k] && r[k] <= '9') {
                        assert(!crate::text::is_ascii_digit(r@.drop_first()[k - 1]));
                        ok = false;
                    }
                    k = k + 1;
                }
                if ok {
                    assert forall|j: int| 0 <= j < r@.drop_first().len() implies crate::text::is_ascii_digit(#[trigger] r@.drop_first()[j]) by {
                        assert(r@.drop_first()[j] == r@[j + 1]);
                    }
                }
                ok
            },
            None => false,
        };
        if in_first {
            assert(first_column_cell(rb@, cv, 0) == Some(cv[i as int]));
            let v = trim_chars(&cell_value_exec(rb, m, shared, lits));
            if v.len() > 0 {
                return Some(v);
            } else {
                return None;
            }
        }
        i = i + 1;
    }
    None
}

/// The names in a worksheet.
pub fn read_sheet_names(sheet: &Vec<char>, shared: &Vec<Vec<char>>, lits: &XmlLits) -> (r: Vec<String>)
    requires
        lits.wf(),
    ensures
        texts(r@) == sheet_names(sheet@, shared@.map_values(|v: Vec<char>| v@)),
{
    let rows = find_elems(sheet, &lits.row_open, &lits.row_close, true, false);
    let ghost rv = usize_triples(rows@);
    let ghost sh = shared@.map_values(|v: Vec<char>| v@);
    proof {
        lemma_elems_from(sheet@, 0, "<row"@, "</row>"@, true, false);
    }
    let mut names: Vec<String> = Vec::new();
    assert(texts(names@) =~= seq![]);
    let mut i: usize = 0;
    while i < rows.len()
        invariant
            i <= rows.len(),
            lits.wf(),
            rv == usize_triples(rows@),
            rv == elems_from(sheet@, 0, "<row"@, "</row>"@, true, false),
            sh == shared@.map_values(|v: Vec<char>| v@),
            forall|k: int| 0 <= k < rv.len() ==> {
                let m = #[trigger] rv[k];
                0 <= m.0 && m.0 + "<row"@.len() <= m.1 <= m.2 && m.2 + "</row>"@.len() <= sheet@.len()
            },
            texts(names@) == rows_names(sheet@, rv.take(i as int), sh),
        decreases rows.len() - i,
    {
        assert(rv.take(i + 1).drop_last() =~= rv.take(i as int));
        let m = rows[i];
        assert(rv[i as int] == (m.0 as int, m.1 as int, m.2 as int));
        let rb = copy_range(sheet, m.1, m.2);
        let ghost before = names@;
        match row_name_exec(&rb, shared, lits) {
            Some(v) => {
                names.push(string_of(&v));
                assert(texts(names@) =~= texts(before).push(v@));
            },
            None => {},
        }
        i = i + 1;
    }
    assert(rv.take(i as int) =~= rv);
    names
}

} // verus!

verus! {

/// The archive path of worksheet `k`.
pub open spec fn sheet_path(k: nat) -> Seq<char> {
    "xl/worksheets/sheet"@ + decimal(k) + ".xml"@
}

/// The first of the worksheets `k..=20` that the archive holds.
pub open spec fn first_sheet(bytes: Seq<u8>, k: int) -> Result<Option<Seq<char>>, Seq<char>>
    decreases 21 - k,
{
    if k < 1 || k > 20 {
        Ok(None)
    } else {
        match zip_entry_text(bytes, sheet_path(k as nat)) {
            Err(e) => Err(e),
            Ok(Some(t)) => Ok(Some(t)),
            Ok(None) => first_sheet(bytes, k + 1),
        }
    }
}

/// The message for a workbook without a worksheet.
pub open spec fn no_sheet_message() -> Seq<char> {
    "未找到 Excel 工作表"@
}

/// The names in a workbook: the first column of its first worksheet (of
/// `sheet1` to `sheet20`), shared strings resolved; or the archive's error,
/// or the message that it has no worksheet.
pub open spec fn xlsx_names(bytes: Seq<u8>) -> Result<Seq<Seq<char>>, Seq<char>> {
    match zip_entry_text(bytes, "xl/sharedStrings.xml"@) {
        Err(e) => Err(e),
        Ok(shared_xml) => {
            let shared = match shared_xml {
                Some(x) => shared_strings(x),
                None => seq![],
            };
            match first_sheet(bytes, 1) {
                Err(e) => Err(e),
                Ok(None) => Err(no_sheet_message()),
                Ok(Some(sheet)) => Ok(sheet_names(sheet, shared)),
            }
        },
    }
}

fn find_sheet(bytes: &[u8]) -> (r: Result<Option<String>, String>)
    ensures
        entry_view(r) == first_sheet(bytes@, 1),
{
    let mut k: u64 = 1;
    while k <= 20
        invariant
            1 <= k <= 21,
            first_sheet(bytes@, k as int) == first_sheet(bytes@, 1),
        decreases 21 - k,
    {
        let mut path = chars_of("xl/worksheets/sheet");
        push_decimal(&mut path, k);
        push_all(&mut path, &chars_of(".xml"));
        let name = string_of(&path);
        assert(name@ =~= sheet_path(k as nat));
        match zip_entry(bytes, name.as_str()) {
            Err(e) => {
                return Err(e);
            },
            Ok(Some(t)) => {
                return Ok(Some(t));
            },
            Ok(None) => {},
        }
        k = k + 1;
    }
    Ok(None)
}

/// The names in an `.xlsx` workbook.
pub fn parse_xlsx(bytes: &[u8]) -> (r: Result<Vec<String>, String>)
    ensures
        crate::import::names_view(r) == xlsx_names(bytes@),
{
    let lits = XmlLits::new();
    let shared: Vec<Vec<char>> = match zip_entry(bytes, "xl/sharedStrings.xml") {
        Err(e) => {
            return Err(e);
        },
        Ok(Some(xml)) => read_shared_strings(&chars_of(xml.as_str()), &lits),
        Ok(None) => {
            let v: Vec<Vec<char>> = Vec::new();
            assert(v@.map_values(|v: Vec<char>| v@) =~= seq![]);
            v
        },
    };
    let sheet = match find_sheet(bytes) {
        Err(e) => {
            return Err(e);
        },
        Ok(found) => found,
    };
    match sheet {
        None => {
            assert(first_sheet(bytes@, 1) == Ok::<Option<Seq<char>>, Seq<char>>(None));
            Err(string_of(&chars_of("未找到 Excel 工作表")))
        },
        Some(t) => {
            assert(first_sheet(bytes@, 1) == Ok::<Option<Seq<char>>, Seq<char>>(Some(t@)));
            Ok(read_sheet_names(&chars_of(t.as_str()), &shared, &lits))
        },
    }
}

} // verus!
