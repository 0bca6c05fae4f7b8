use std::io::Write;
use steam_link_matcher::import::{
    decode_text, drop_known_header, import_kind, parse_csv, parse_txt, ImportKind,
};
use steam_link_matcher::xlsx::parse_xlsx;

fn workbook(parts: &[(&str, &str)]) -> Vec<u8> {
    let mut zip = zip::ZipWriter::new(std::io::Cursor::new(Vec::new()));
    for (name, body) in parts {
        zip.start_file(*name, zip::write::SimpleFileOptions::default()).unwrap();
        zip.write_all(body.as_bytes()).unwrap();
    }
    zip.finish().unwrap().into_inner()
}

#[test]
fn text_decoding_handles_bom_and_gbk() {
    assert_eq!(decode_text(b"\xEF\xBB\xBFHades"), "Hades");
    assert_eq!(decode_text("悟空".as_bytes()), "悟空");
    // "悟空" in GBK.
    assert_eq!(decode_text(&[0xCE, 0xF2, 0xBF, 0xD5]), "悟空");
}

#[test]
fn txt_lines_are_trimmed_and_blank_ones_dropped() {
    let names = parse_txt("\u{feff}Corpse Keeper\r\n\r\n  黑神话:悟空  \nWarhammer 40,000: Rogue Trader(2026.7.1到期）".as_bytes());
    assert_eq!(
        names,
        vec![
            "Corpse Keeper".to_string(),
            "黑神话:悟空".to_string(),
            "Warhammer 40,000: Rogue Trader(2026.7.1到期）".to_string(),
        ]
    );
    assert!(parse_txt(b"").is_empty());
}

#[test]
fn csv_first_column() {
    let names = parse_csv("name,price\n\"Warhammer 40,000: Rogue Trader\",10\n ,3\nHades,5\n".as_bytes()).unwrap();
    assert_eq!(
        names,
        vec!["name".to_string(), "Warhammer 40,000: Rogue Trader".to_string(), "Hades".to_string()]
    );
    assert!(parse_csv(b"a,b\nc\n").is_err());
}

#[test]
fn known_headers_are_dropped() {
    let v = |xs: &[&str]| xs.iter().map(|s| s.to_string()).collect::<Vec<String>>();
    assert_eq!(drop_known_header(v(&["Name", "Hades"])), v(&["Hades"]));
    assert_eq!(drop_known_header(v(&[" 游戏名称 ", "Hades"])), v(&["Hades"]));
    assert_eq!(drop_known_header(v(&["Hades", "name"])), v(&["Hades", "name"]));
    assert_eq!(drop_known_header(v(&[])), v(&[]));
}

#[test]
fn import_kinds() {
    assert_eq!(import_kind("CSV"), ImportKind::Csv);
    assert_eq!(import_kind("xlsx"), ImportKind::Xlsx);
    assert_eq!(import_kind("txt"), ImportKind::Text);
    assert_eq!(import_kind(""), ImportKind::Text);
}

#[test]
fn xlsx_first_column_with_shared_and_inline_strings() {
    let shared = r#"<sst><si><t>游戏名</t></si><si><r><t>Corpse </t></r><r><t xml:space="preserve">Keeper</t></r></si><si><t>Tom &amp; Jerry</t></si></sst>"#;
    let sheet = [
        r#"<worksheet><sheetData>"#,
        r#"<row r="1"><c r="A1" t="s"><v>0</v></c><c r="B1"><v>9</v></c></row>"#,
        r#"<row r="2"><c r="A2" t="s"><v>1</v></c></row>"#,
        r#"<row r="3"><c r="B3" t="s"><v>2</v></c><c r="A3" t="inlineStr"><is><t>Hades</t></is></c></row>"#,
        r#"<row r="4"><c r="A4"><v>42</v></c></row>"#,
        r#"<row r="5"><c r="A5" t="s"><v>7</v></c></row>"#,
        r#"<row r="6"><c r="AA6" t="s"><v>2</v></c></row>"#,
        r#"</sheetData></worksheet>"#,
    ]
    .join("");
    let bytes = workbook(&[("xl/sharedStrings.xml", shared), ("xl/worksheets/sheet1.xml", sheet.as_str())]);
    let names = parse_xlsx(&bytes).unwrap();
    assert_eq!(
        names,
        vec!["游戏名".to_string(), "Corpse Keeper".to_string(), "Hades".to_string(), "42".to_string()]
    );
    assert_eq!(drop_known_header(names).len(), 3);
}

#[test]
fn xlsx_uses_first_present_sheet() {
    let sheet = r#"<row><c r="A1" t="inlineStr"><is><t>Celeste</t></is></c></row>"#;
    let bytes = workbook(&[("xl/worksheets/sheet3.xml", sheet)]);
    assert_eq!(parse_xlsx(&bytes).unwrap(), vec!["Celeste".to_string()]);
}

#[test]
fn xlsx_errors() {
    let bytes = workbook(&[("xl/workbook.xml", "<workbook/>")]);
    assert_eq!(parse_xlsx(&bytes).unwrap_err(), "未找到 Excel 工作表");
    assert!(parse_xlsx(b"not a zip").is_err());
}
