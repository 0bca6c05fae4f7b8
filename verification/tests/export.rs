use steam_link_matcher::export::{export_csv_bytes, export_rows};
use steam_link_matcher::matching::MatchResult;
use steam_link_matcher::message::display_error;
use steam_link_matcher::paths::{db_path, is_portable_dir};

fn sample() -> MatchResult {
    MatchResult {
        original: "Hades, the game".to_string(),
        cleaned: "Hades, the game".to_string(),
        status: "已匹配".to_string(),
        steam_title: "Hades".to_string(),
        app_id: "1145360".to_string(),
        url: "https://store.steampowered.com/app/1145360/Hades/".to_string(),
        confidence: "高".to_string(),
        score: 100,
        needs_review: false,
        source: "自动匹配".to_string(),
        candidates: vec![],
        message: "".to_string(),
        from_cache: false,
    }
}

#[test]
fn export_table_rows() {
    let rows = export_rows(&vec![sample()]);
    assert_eq!(rows.len(), 2);
    assert_eq!(rows[0][0], "原始输入");
    assert_eq!(rows[0][10], "备注");
    assert_eq!(rows[1][7], "否");
    assert_eq!(rows[1][9], "0");
    assert_eq!(rows[1][4], "1145360");
}

#[test]
fn csv_export_has_bom_and_quotes() {
    let bytes = export_csv_bytes(&vec![sample()]).unwrap();
    assert_eq!(&bytes[..3], b"\xEF\xBB\xBF");
    let text = String::from_utf8(bytes[3..].to_vec()).unwrap();
    assert!(text.starts_with("原始输入,清洗后名称,"));
    assert!(text.contains("\"Hades, the game\",\"Hades, the game\",已匹配,Hades,1145360,"));
    assert!(text.ends_with(",自动匹配,0,\n"));
}

#[test]
fn cache_path_and_portable_folder() {
    assert_eq!(db_path("/home/u/data"), "/home/u/data/cache.sqlite3");
    assert_eq!(db_path("/home/u/data/"), "/home/u/data/cache.sqlite3");
    assert_eq!(db_path(""), "cache.sqlite3");
    assert!(is_portable_dir("/opt/app/data"));
    assert!(is_portable_dir("/opt/app/DATA/"));
    assert!(is_portable_dir("./Data/."));
    assert!(!is_portable_dir("/opt/app/data/.."));
    assert!(!is_portable_dir("/opt/app/database"));
    assert!(!is_portable_dir("/"));
}

#[test]
fn errors_are_shown_by_their_text() {
    assert_eq!(display_error("boom"), "boom");
    assert_eq!(display_error(&42), "42");
}
