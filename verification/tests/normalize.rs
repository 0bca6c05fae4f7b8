use steam_link_matcher::normalize::{
    cache_key, clean_name, confidence_for, is_likely_non_game, normalize_text, steam_search_language,
};

#[test]
fn normalize_text_folds_case_punctuation_and_space() {
    assert_eq!(normalize_text("  Warhammer 40,000：Rogue   Trader  "), "warhammer 40,000:rogue trader");
    assert_eq!(normalize_text("Baldur’s Gate（3）"), "baldur's gate(3)");
    assert_eq!(normalize_text("A\t\nB"), "a b");
}

#[test]
fn clean_name_drops_expiry_notes() {
    assert_eq!(clean_name("Warhammer 40,000: Rogue Trader(2026.7.1到期）"), "Warhammer 40,000: Rogue Trader");
    assert_eq!(clean_name("Corpse Keeper"), "Corpse Keeper");
    assert_eq!(clean_name("Hades (Steam Key)"), "Hades");
    assert_eq!(clean_name("Portal (2)"), "Portal");
    assert_eq!(clean_name("Portal (Deluxe)"), "Portal (Deluxe)");
}

#[test]
fn clean_name_drops_bare_dates_and_edges() {
    assert_eq!(clean_name("Stardew Valley 2025-12-31 到期"), "Stardew Valley");
    assert_eq!(clean_name(" - Celeste | "), "Celeste");
    assert_eq!(clean_name("黑神话:悟空"), "黑神话:悟空");
    assert_eq!(clean_name("黑神话：悟空（CN）"), "黑神话:悟空");
}

#[test]
fn clean_name_repeats_until_stable() {
    assert_eq!(clean_name("Game ((key) gift)"), "Game");
}

#[test]
fn clean_name_keeps_year_inside_word() {
    assert_eq!(clean_name("X2024-1-1"), "X2024-1-1");
}

#[test]
fn cache_key_compacts_cleaned_name() {
    assert_eq!(cache_key("Warhammer 40,000: Rogue Trader(2026.7.1到期）"), "warhammer40000roguetrader");
    assert_eq!(cache_key("黑神话：悟空"), "黑神话悟空");
    assert_eq!(cache_key("!!!"), "!!!");
}

#[test]
fn search_language_follows_cjk() {
    assert_eq!(steam_search_language("黑神话:悟空"), "schinese");
    assert_eq!(steam_search_language("Hades"), "english");
    assert_eq!(steam_search_language("Hades（中文）"), "schinese");
}

#[test]
fn confidence_thresholds() {
    assert_eq!(confidence_for(88), "高");
    assert_eq!(confidence_for(87), "中");
    assert_eq!(confidence_for(70), "中");
    assert_eq!(confidence_for(69), "低");
    assert_eq!(confidence_for(-5), "低");
}

#[test]
fn non_game_detection() {
    assert!(is_likely_non_game("Hades Original Soundtrack", "https://store.steampowered.com/app/1/x/"));
    assert!(is_likely_non_game("Hades", "https://store.steampowered.com/app/1/Hades_Soundtrack/"));
    assert!(is_likely_non_game("Ghost of Tsushima", ""));
    assert!(is_likely_non_game("Celeste Playtest", ""));
    assert!(!is_likely_non_game("Hades", "https://store.steampowered.com/app/1145360/Hades/"));
    assert!(!is_likely_non_game("Paladins", "https://store.steampowered.com/app/444090/Paladins/"));
}
