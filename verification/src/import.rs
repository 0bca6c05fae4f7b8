//! Reading name lists out of imported files: text decoding, plain text,
//! CSV and the known header row.

use vstd::prelude::*;
use crate::candidate::texts;
use crate::ext::{
    csv_parsed, csv_records, gbk_decode, gbk_decoded, records_view, string_of, utf8_text,
};
use crate::normalize::{normalize_chars, normalized};
use crate::text::{chars_of, copy_range, lemma_skip_while_bounds, not_in, skip_not_in, skip_while, trim, trim_chars};

verus! {

/// `bytes` without a leading UTF-8 byte order mark.
pub open spec fn without_bom(bytes: Seq<u8>) -> Seq<u8> {
    if bytes.len() >= 3 && bytes[0] == 0xef && bytes[1] == 0xbb && bytes[2] == 0xbf {
        bytes.skip(3)
    } else {
        bytes
    }
}

/// The text of an imported file: UTF-8 (after a byte order mark, if any)
/// where the bytes are valid UTF-8, GBK otherwise.
pub open spec fn decoded_text(bytes: Seq<u8>) -> Seq<char> {
    let b = without_bom(bytes);
    if vstd::utf8::valid_utf8(b) {
        vstd::utf8::decode_utf8(b)
    } else {
        gbk_decoded(b)
    }
}

/// The bytes can be decoded without exceeding the GBK decoder's limit: they
/// are UTF-8 (after a byte order mark, if any), or short enough that the
/// decoder's output size fits a `usize`.
pub open spec fn decodable(bytes: Seq<u8>) -> bool {
    vstd::utf8::valid_utf8(without_bom(bytes)) || bytes.len() <= usize::MAX / 4
}

/// The text of an imported file.
pub fn decode_text(bytes: &[u8]) -> (r: String)
    requires
        decodable(bytes@),
    ensures
        r@ == decoded_text(bytes@),
{
    let start: usize = if bytes.len() >= 3 && bytes[0] == 0xef && bytes[1] == 0xbb && bytes[2]
        == 0xbf {
        3
    } else {
        0
    };
    let mut b: Vec<u8> = Vec::new();
    let mut i: usize = start;
    while i < bytes.len()
        invariant
            start <= i <= bytes@.len(),
            b@ == bytes@.subrange(start as int, i as int),
        decreases bytes.len() - i,
    {
        b.push(bytes[i]);
        i = i + 1;
        assert(b@ =~= bytes@.subrange(start as int, i as int));
    }
    assert(b@ =~= without_bom(bytes@));
    match utf8_text(b.as_slice()) {
        Some(s) => s,
        None => gbk_decode(b.as_slice()),
    }
}

pub open spec fn is_bom_char(c: char) -> bool {
    c as int == 0xfeff
}

pub open spec fn bom_char() -> spec_fn(char) -> bool {
    |c: char| is_bom_char(c)
}

/// The non-blank lines of `s[p..]`, trimmed: lines end at `\n`.
pub open spec fn lines_from(s: Seq<char>, p: int) -> Seq<Seq<char>>
    decreases s.len() - p,
{
    if p < 0 || p >= s.len() {
        seq![]
    } else {
        let e = skip_while(s, p, not_in(seq!['\n']));
        proof {
            lemma_skip_while_bounds(s, p, not_in(seq!['\n']));
        }
        let t = trim(s.subrange(p, e));
        (if t.len() > 0 {
            seq![t]
        } else {
            seq![]
        }) + if e < s.len() {
            lines_from(s, e + 1)
        } else {
            seq![]
        }
    }
}

/// The names in a plain text file: its non-blank lines, trimmed, after any
/// leading U+FEFF.
pub open spec fn txt_names(bytes: Seq<u8>) -> Seq<Seq<char>> {
    let t = decoded_text(bytes);
    lines_from(t, skip_while(t, 0, bom_char()))
}

/// The names in a plain text file.
pub fn parse_txt(bytes: &[u8]) -> (r: Vec<String>)
    requires
        decodable(bytes@),
    ensures
        texts(r@) == txt_names(bytes@),
{
    let text = decode_text(bytes);
    let s = chars_of(text.as_str());
    let mut p: usize = 0;
    while p < s.len() && s[p] == '\u{feff}'
        invariant
            p <= s.len(),
            skip_while(s@, p as int, bom_char()) == skip_while(s@, 0, bom_char()),
        decreases s.len() - p,
    {
        p = p + 1;
    }
    let mut nl: Vec<char> = Vec::new();
    nl.push('\n');
    assert(nl@ =~= seq!['\n']);
    let ghost start = p as int;
    let mut names: Vec<String> = Vec::new();
    assert(texts(names@) =~= seq![]);
    while p < s.len()
        invariant
            p <= s.len(),
            nl@ == seq!['\n'],
            s@ == decoded_text(bytes@),
            start == skip_while(s@, 0, bom_char()),
            texts(names@) + lines_from(s@, p as int) == lines_from(s@, start),
        decreases s.len() - p,
    {
        let e = skip_not_in(&s, p, &nl);
        let line = trim_chars(&copy_range(&s, p, e));
        let ghost before = names@;
        if line.len() > 0 {
            names.push(string_of(&line));
            assert(texts(names@) =~= texts(before).push(line@));
        }
        if e < s.len() {
            assert(texts(names@) + lines_from(s@, e + 1) =~= lines_from(s@, start));
            p = e + 1;
        } else {
            assert(texts(names@) =~= lines_from(s@, start));
            p = s.len();
        }
    }
    assert(lines_from(s@, p as int) == Seq::<Seq<char>>::empty());
    assert(texts(names@) =~= lines_from(s@, start));
    names
}

/// The first-column names of CSV records: the first field of each record
/// that has one, trimmed, where not blank.
pub open spec fn first_fields(rows: Seq<Seq<Seq<char>>>) -> Seq<Seq<char>>
    decreases rows.len(),
{
    if rows.len() == 0 {
        seq![]
    } else {
        let row = rows.last();
        first_fields(rows.drop_last()) + if row.len() > 0 && trim(row[0]).len() > 0 {
            seq![trim(row[0])]
        } else {
            seq![]
        }
    }
}

/// The names in a CSV file: the first column, or the CSV reader's error.
pub open spec fn csv_names(bytes: Seq<u8>) -> Result<Seq<Seq<char>>, Seq<char>> {
    match csv_parsed(decoded_text(bytes)) {
        Ok(rows) => Ok(first_fields(rows)),
        Err(e) => Err(e),
    }
}

pub open spec fn names_view(r: Result<Vec<String>, String>) -> Result<Seq<Seq<char>>, Seq<char>> {
    match r {
        Ok(v) => Ok(texts(v@)),
        Err(e) => Err(e@),
    }
}

/// The names in what the CSV reader gave: the first column, or its error.
pub open spec fn first_column(records: Result<Seq<Seq<Seq<char>>>, Seq<char>>) -> Result<Seq<Seq<char>>, Seq<char>> {
    match records {
        Ok(rows) => Ok(first_fields(rows)),
        Err(e) => Err(e),
    }
}

/// The names in the CSV reader's records: the first field of each record
/// that has one, trimmed, where not blank; the reader's error as it is.
pub fn csv_first_column(records: Result<Vec<Vec<String>>, String>) -> (r: Result<Vec<String>, String>)
    ensures
        names_view(r) == first_column(records_view(records)),
{
    let rows = match records {
        Ok(rows) => rows,
        Err(e) => {
            return Err(e);
        },
    };
    let ghost rv = rows@.map_values(|row: Vec<String>| row@.map_values(|f: String| f@));
    let mut names: Vec<String> = Vec::new();
    let mut i: usize = 0;
    while i < rows.len()
        invariant
            i <= rows.len(),
            rv == rows@.map_values(|row: Vec<String>| row@.map_values(|f: String| f@)),
            texts(names@) == first_fields(rv.take(i as int)),
        decreases rows.len() - i,
    {
        assert(rv.take(i + 1).drop_last() =~= rv.take(i as int));
        let row = &rows[i];
        let ghost before = names@;
        if row.len() > 0 {
            assert(rv[i as int][0] == row@[0]@);
            let v = trim_chars(&chars_of(row[0].as_str()));
            if v.len() > 0 {
                names.push(string_of(&v));
                assert(texts(names@) =~= texts(before).push(v@));
            }
        }
        assert(texts(names@) =~= first_fields(rv.take(i + 1)));
        i = i + 1;
    }
    assert(rv.take(i as int) =~= rv);
    Ok(names)
}

/// The names in a CSV file.
pub fn parse_csv(bytes: &[u8]) -> (r: Result<Vec<String>, String>)
    requires
        decodable(bytes@),
    ensures
        names_view(r) == csv_names(bytes@),
{
    let text = decode_text(bytes);
    csv_first_column(csv_records(text.as_str()))
}

/// Header texts that a name list may start with.
pub open spec fn header_words() -> Seq<&'static str> {
    seq!["name", "game", "games", "title", "titles", "游戏", "游戏名", "游戏名称", "名称"]
}

/// A first row that normalises to a header text is a header.
pub open spec fn is_header(first: Seq<char>) -> bool {
    exists|k: int| 0 <= k < header_words().len() && normalized(first) == (#[trigger] header_words()[k])@
}

/// Drops a first row that is a known header (`name`, `游戏名`, ...).
pub fn drop_known_header(names: Vec<String>) -> (r: Vec<String>)
    ensures
        texts(r@) == if names@.len() > 0 && is_header(names@[0]@) {
            texts(names@).drop_first()
        } else {
            texts(names@)
        },
{
    if names.len() == 0 {
        return names;
    }
    let header = normalize_chars(&chars_of(names[0].as_str()));
    let words: [&str; 9] = ["name", "game", "games", "title", "titles", "游戏", "游戏名", "游戏名称", "名称"];
    assert(words@ == header_words());
    let mut k: usize = 0;
    let mut found = false;
    while k < 9
        invariant
            k <= 9,
            names@.len() > 0,
            words@ == header_words(),
            header@ == normalized(names@[0]@),
            found ==> is_header(names@[0]@),
            !found ==> forall|m: int| 0 <= m < k ==> normalized(names@[0]@) != (#[trigger] header_words()[m])@,
        decreases 9 - k,
    {
        if !found && crate::text::same_chars(&header, &chars_of(words[k])) {
            found = true;
        }
        k = k + 1;
    }
    if !found {
        return names;
    }
    let mut rest: Vec<String> = Vec::new();
    let mut i: usize = 1;
    while i < names.len()
        invariant
            1 <= i <= names.len(),
            texts(rest@) == texts(names@).subrange(1, i as int),
        decreases names.len() - i,
    {
        let ghost before = rest@;
        let item = names[i].clone();
        assert(item@ == names@[i as int]@);
        rest.push(item);
        assert(texts(rest@) =~= texts(before).push(names@[i as int]@));
        i = i + 1;
        assert(texts(rest@) =~= texts(names@).subrange(1, i as int));
    }
    assert(texts(names@).subrange(1, i as int) =~= texts(names@).drop_first());
    rest
}

/// The kinds of file a name list can be imported from.
#[derive(Clone, Copy, Debug, PartialEq, Eq)]
pub enum ImportKind {
    Csv,
    Xlsx,
    Text,
}

/// The kind of an imported file from its extension (ASCII case ignored):
/// `csv`, `xlsx`, and plain text for anything else.
pub fn import_kind(extension: &str) -> (r: ImportKind)
    ensures
        ({
            let e = extension@.map_values(|c: char| crate::text::ascii_lower(c));
            r == if e == "csv"@ {
                ImportKind::Csv
            } else if e == "xlsx"@ {
                ImportKind::Xlsx
            } else {
                ImportKind::Text
            }
        }),
{
    let x = chars_of(extension);
    let mut lower: Vec<char> = Vec::new();
    let mut i: usize = 0;
    while i < x.len()
        invariant
            i <= x.len(),
            lower@ == x@.take(i as int).map_values(|c: char| crate::text::ascii_lower(c)),
        decreases x.len() - i,
    {
        let c = x[i];
        let l: char = if 'A' <= c && c <= 'Z' {
            ((c as u32) + 32) as u8 as char
        } else {
            c
        };
        lower.push(l);
        i = i + 1;
        assert(lower@ =~= x@.take(i as int).map_values(|c: char| crate::text::ascii_lower(c)));
    }
    assert(x@.take(i as int) =~= x@);
    let e = string_of(&lower);
    if crate::matching::text_is(&e, "csv") {
        ImportKind::Csv
    } else if crate::matching::text_is(&e, "xlsx") {
        ImportKind::Xlsx
    } else {
        ImportKind::Text
    }
}

} // verus!
