use steam_link_matcher::import::csv_first_column;
use steam_link_matcher::normalize::{cache_key, fold_lowered, normalize_text};
use steam_link_matcher::paths::is_data_folder_name;
use steam_link_matcher::export::export_csv_bytes;
use steam_link_matcher::search::{game_link, reuse_cached_search};
use steam_link_matcher::settings::{delay_setting_text, get_request_delay_ms};
use steam_link_matcher::store::title_or_slug;

#[test]
fn request_delay_reads_back_as_written() {
    assert_eq!(get_request_delay_ms(Some(delay_setting_text(2500))), 2500);
    assert_eq!(get_request_delay_ms(Some(delay_setting_text(0))), 0);
    assert_eq!(get_request_delay_ms(Some(delay_setting_text(20000))), 10000);
    assert_eq!(delay_setting_text(20000), "10000");
}

#[test]
fn cache_keys_ignore_ascii_case_and_surrounding_space() {
    assert_eq!(cache_key("Corpse Keeper"), "corpsekeeper");
    assert_eq!(cache_key("Corpse Keeper"), cache_key("  corpse KEEPER\t"));
    assert_eq!(cache_key("Corpse Keeper"), cache_key(" corpse keeper (steam key) "));
    assert_eq!(cache_key("Hades (Gift 2025-01-31)"), cache_key("HADES"));
    assert_ne!(cache_key("Hades"), cache_key("Hades II"));
}

#[test]
fn folding_after_lowercasing() {
    let v: Vec<char> = "a：b，（c）’`  \t d".chars().collect();
    let r: String = fold_lowered(&v).into_iter().collect();
    assert_eq!(r, "a:b,(c)'' d");
}

#[test]
fn title_from_details_name_or_slug() {
    let url = "https://store.steampowered.com/app/1601740/Corpse_Keeper/";
    assert_eq!(title_or_slug(Some("  Corpse Keeper ".to_string()), "1601740", url), "Corpse Keeper");
    assert_eq!(title_or_slug(Some("   ".to_string()), "1601740", url), "Corpse Keeper");
    assert_eq!(title_or_slug(None, "1601740", url), "Corpse Keeper");
    assert_eq!(title_or_slug(None, "7", "https://store.steampowered.com/app/7/"), "Steam App 7");
}

#[test]
fn first_column_of_csv_records() {
    let rows = vec![
        vec![" Hades ".to_string(), "x".to_string()],
        vec!["".to_string()],
        vec![],
        vec!["Celeste".to_string()],
    ];
    assert_eq!(csv_first_column(Ok(rows)).unwrap(), vec!["Hades".to_string(), "Celeste".to_string()]);
    assert_eq!(csv_first_column(Err("bad record".to_string())), Err("bad record".to_string()));
}

#[test]
fn game_links_from_decoded_parts() {
    let id: Vec<char> = "570".chars().collect();
    let link = game_link(&id, "  Dota 2 ", "https://store.steampowered.com/app/570/Dota_2///").unwrap();
    assert_eq!(link.app_id, "570");
    assert_eq!(link.title, "Dota 2");
    assert_eq!(link.url, "https://store.steampowered.com/app/570/Dota_2/");
    assert!(game_link(&id, "   ", "https://store.steampowered.com/app/570/").is_none());
    assert!(game_link(&id, "Dota 2 Soundtrack", "https://store.steampowered.com/app/570/").is_none());
}

#[test]
fn data_folder_names() {
    assert!(is_data_folder_name(Some("data".to_string())));
    assert!(is_data_folder_name(Some("DaTa".to_string())));
    assert!(!is_data_folder_name(Some("database".to_string())));
    assert!(!is_data_folder_name(None));
}

#[test]
fn normalising_twice_is_normalising_once() {
    for name in ["  Baldur`s   GATE\t3 ", "Hades", "", "A  -  B", "Warhammer 40,000：Rogue Trader"] {
        let once = normalize_text(name);
        assert_eq!(normalize_text(&once), once);
    }
    assert_eq!(normalize_text("  Baldur`s   GATE\t3 "), "baldur's gate 3");
}

#[test]
fn chinese_names_keys_and_normal_forms() {
    assert_eq!(cache_key("黑神话：悟空"), cache_key("  黑神话：悟空 "));
    assert_eq!(cache_key("Hades 哈迪斯"), cache_key("HADES 哈迪斯"));
    let once = normalize_text("  （黑神话）：  WUKONG ");
    assert_eq!(once, "(黑神话): wukong");
    assert_eq!(normalize_text(&once), once);
}

#[test]
fn export_never_fails_and_cached_lists() {
    assert!(export_csv_bytes(&vec![]).is_ok());
    assert!(reuse_cached_search(Some(vec![])).is_none());
    assert!(reuse_cached_search(None).is_none());
}
