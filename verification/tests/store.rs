use steam_link_matcher::store::{
    app_details_url, fetch_app_title, normalize_steam_app_url, title_from_slug,
};

#[test]
fn app_url_is_normalised() {
    let (id, url) = normalize_steam_app_url("https://store.steampowered.com/app/1601740/Corpse_Keeper/").unwrap();
    assert_eq!(id, "1601740");
    assert_eq!(url, "https://store.steampowered.com/app/1601740/Corpse_Keeper/");
    let (id2, url2) = normalize_steam_app_url("store.steampowered.com/app/570").unwrap();
    assert_eq!(id2, "570");
    assert_eq!(url2, "https://store.steampowered.com/app/570/");
    let (_, url3) = normalize_steam_app_url("https://store.steampowered.com/app/570//#reviews").unwrap();
    assert_eq!(url3, "https://store.steampowered.com/app/570/");
}

#[test]
fn app_url_needs_digits() {
    assert!(normalize_steam_app_url("https://store.steampowered.com/app/abc/").is_err());
    let (id, _) = normalize_steam_app_url("store.steampowered.com/app/x store.steampowered.com/app/12/y").unwrap();
    assert_eq!(id, "12");
}

#[test]
fn canonical_link_normalises_to_itself() {
    let (id, url) = normalize_steam_app_url("  https://store.steampowered.com/app/42/Slug_Name?x=1 ").unwrap();
    let (id2, url2) = normalize_steam_app_url(&url).unwrap();
    assert_eq!(id, id2);
    assert_eq!(url, url2);
}

#[test]
fn slug_titles() {
    assert_eq!(title_from_slug("https://store.steampowered.com/app/10/Counter-Strike/", "10"), "Counter Strike");
    assert_eq!(title_from_slug("https://store.steampowered.com/app/10/__/", "10"), "Steam App 10");
    assert_eq!(title_from_slug("https://store.steampowered.com/app/10/", "10"), "Steam App 10");
    assert_eq!(title_from_slug("https://store.steampowered.com/app/11/Other/", "10"), "Steam App 10");
}

#[test]
fn details_title_and_address() {
    assert_eq!(
        app_details_url("570"),
        "https://store.steampowered.com/api/appdetails?appids=570&filters=basic&l=english"
    );
    let details = r#"{"570":{"data":{"name":"Dota 2"}}}"#.to_string();
    assert_eq!(fetch_app_title(Some(details), "570", "https://store.steampowered.com/app/570/"), "Dota 2");
    let blank = r#"{"570":{"data":{"name":"   "}}}"#.to_string();
    assert_eq!(
        fetch_app_title(Some(blank), "570", "https://store.steampowered.com/app/570/Dota_2/"),
        "Dota 2"
    );
    let other = r#"{"571":{"data":{"name":"Else"}}}"#.to_string();
    assert_eq!(fetch_app_title(Some(other), "570", "x"), "Steam App 570");
}
