//! The exported result table: its header, one row per result, and the CSV
//! file bytes.

use vstd::prelude::*;
use crate::ext::{bytes_view, csv_encode, csv_written, rows_view, string_of};
use crate::matching::{MatchResult, MatchView};
use crate::text::{decimal, push_decimal};

verus! {

/// The column headers of an export.
pub open spec fn export_header() -> Seq<&'static str> {
    seq![
        "原始输入",
        "清洗后名称",
        "匹配状态",
        "Steam游戏名",
        "Steam App ID",
        "Steam链接",
        "置信度",
        "是否需要复核",
        "结果来源",
        "候选数量",
        "备注",
    ]
}

/// The exported row of a result: its texts, 是/否 for review, and its
/// number of candidates.
pub open spec fn export_row(v: MatchView) -> Seq<Seq<char>> {
    seq![
        v.original,
        v.cleaned,
        v.status,
        v.steam_title,
        v.app_id,
        v.url,
        v.confidence,
        if v.needs_review {
            "是"@
        } else {
            "否"@
        },
        v.source,
        decimal(v.candidates.len()),
        v.message,
    ]
}

/// The exported table: the header row, then one row per result.
pub open spec fn export_table(results: Seq<MatchResult>) -> Seq<Seq<Seq<char>>> {
    seq![export_header().map_values(|h: &str| h@)] + results.map_values(|r: MatchResult| export_row(r@))
}

fn header_row() -> (r: Vec<String>)
    ensures
        r@.map_values(|f: String| f@) == export_header().map_values(|h: &str| h@),
{
    let hs: [&str; 11] = [
        "原始输入",
        "清洗后名称",
        "匹配状态",
        "Steam游戏名",
        "Steam App ID",
        "Steam链接",
        "置信度",
        "是否需要复核",
        "结果来源",
        "候选数量",
        "备注",
    ];
    assert(hs@ == export_header());
    let mut r: Vec<String> = Vec::new();
    let mut i: usize = 0;
    while i < 11
        invariant
            i <= 11,
            hs@ == export_header(),
            r@.map_values(|f: String| f@) == export_header().map_values(|h: &str| h@).take(i as int),
        decreases 11 - i,
    {
        let ghost before = r@;
        r.push(hs[i].to_owned());
        assert(r@.map_values(|f: String| f@) =~= before.map_values(|f: String| f@).push(hs@[i as int]@));
        i = i + 1;
        assert(export_header().map_values(|h: &str| h@).take(i as int) =~= export_header().map_values(
            |h: &str| h@,
        ).take(i - 1).push(export_header()[i - 1]@));
    }
    assert(export_header().map_values(|h: &str| h@).take(11) =~= export_header().map_values(|h: &str| h@));
    r
}

fn result_row(m: &MatchResult) -> (r: Vec<String>)
    ensures
        r@.map_values(|f: String| f@) == export_row(m@),
{
    let mut count: Vec<char> = Vec::new();
    push_decimal(&mut count, m.candidates.len() as u64);
    let mut r: Vec<String> = Vec::new();
    r.push(m.original.clone());
    r.push(m.cleaned.clone());
    r.push(m.status.clone());
    r.push(m.steam_title.clone());
    r.push(m.app_id.clone());
    r.push(m.url.clone());
    r.push(m.confidence.clone());
    r.push(
        if m.needs_review {
            "是".to_owned()
        } else {
            "否".to_owned()
        },
    );
    r.push(m.source.clone());
    r.push(string_of(&count));
    r.push(m.message.clone());
    assert(r@.map_values(|f: String| f@) =~= export_row(m@));
    r
}

/// The exported table of `results`.
pub fn export_rows(results: &Vec<MatchResult>) -> (r: Vec<Vec<String>>)
    ensures
        rows_view(r@) == export_table(results@),
{
    let mut r: Vec<Vec<String>> = Vec::new();
    r.push(header_row());
    let mut i: usize = 0;
    while i < results.len()
        invariant
            i <= results.len(),
            rows_view(r@) == export_table(results@.take(i as int)),
        decreases results.len() - i,
    {
        let ghost before = r@;
        r.push(result_row(&results[i]));
        assert(rows_view(r@) =~= rows_view(before).push(export_row(results@[i as int]@)));
        i = i + 1;
        assert(export_table(results@.take(i as int)) =~= export_table(results@.take(i - 1)).push(
            export_row(results@[i - 1]@),
        ));
    }
    assert(results@.take(i as int) =~= results@);
    r
}

/// The bytes of a CSV export: a UTF-8 byte order mark, then the table as
/// the CSV writer writes it; or the writer's error.
pub open spec fn csv_export(results: Seq<MatchResult>) -> Result<Seq<u8>, Seq<char>> {
    match csv_written(export_table(results)) {
        Ok(b) => Ok(seq![0xefu8, 0xbbu8, 0xbfu8] + b),
        Err(e) => Err(e),
    }
}

/// Every row of an export has eleven fields.
proof fn lemma_export_widths(results: Seq<MatchResult>)
    ensures
        crate::ext::equal_widths(export_table(results)),
{
    let t = export_table(results);
    assert(export_header().len() == 11);
    assert forall|i: int| 0 <= i < t.len() implies (#[trigger] t[i]).len() == 11 by {
        if i > 0 {
            assert(t[i] == export_row(results[i - 1]@));
        }
    }
}

/// The bytes of a CSV export of `results`; writing the table never fails.
pub fn export_csv_bytes(results: &Vec<MatchResult>) -> (r: Result<Vec<u8>, String>)
    ensures
        bytes_view(r) == csv_export(results@),
        r is Ok,
{
    let rows = export_rows(results);
    proof {
        lemma_export_widths(results@);
    }
    let body = match csv_encode(&rows) {
        Ok(b) => b,
        Err(e) => {
            return Err(e);
        },
    };
    let mut out: Vec<u8> = Vec::new();
    out.push(0xef);
    out.push(0xbb);
    out.push(0xbf);
    let mut i: usize = 0;
    while i < body.len()
        invariant
            i <= body.len(),
            out@ == seq![0xefu8, 0xbbu8, 0xbfu8] + body@.take(i as int),
        decreases body.len() - i,
    {
        out.push(body[i]);
        i = i + 1;
        assert(out@ =~= seq![0xefu8, 0xbbu8, 0xbfu8] + body@.take(i as int));
    }
    assert(body@.take(i as int) =~= body@);
    Ok(out)
}

} // verus!
