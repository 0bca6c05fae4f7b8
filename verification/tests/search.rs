use steam_link_matcher::search::{
    extract_search_links, finish_title_score, needs_suggestions, rank_search_links, score_texts,
    search_cache_key, search_url, suggest_url, ScoreTexts,
};

/// The similarity part of a title's score, computed as the desktop shell does.
fn title_score(query: &str, title: &str) -> i32 {
    match score_texts(query, title) {
        None => 0,
        Some(texts) => {
            let ratio = strsim::normalized_levenshtein(&texts.query, &texts.title);
            let compact = strsim::normalized_levenshtein(&texts.compact_query, &texts.compact_title);
            finish_title_score((ratio.max(compact) * 100.0).round() as i32, &texts)
        }
    }
}

fn parse_search_results(page: &str, query: &str) -> Vec<steam_link_matcher::candidate::Candidate> {
    let links = extract_search_links(page);
    let scores: Vec<i32> = links.iter().map(|l| title_score(query, &l.title)).collect();
    rank_search_links(&links, &scores)
}

#[test]
fn parses_steam_suggest_results() {
    let html = r#"<a class="match" data-ds-appid="1398070" href="https://store.steampowered.com/app/1398070/The_Book_of_Bondmaids/?snr=1_7_15__13"><div class="match_name">The Book of Bondmaids</div></a>"#;
    let candidates = parse_search_results(html, "The Book of Bondmaids");
    assert_eq!(candidates.len(), 1);
    assert_eq!(candidates[0].app_id, "1398070");
    assert_eq!(candidates[0].title, "The Book of Bondmaids");
    assert_eq!(
        candidates[0].url,
        "https://store.steampowered.com/app/1398070/The_Book_of_Bondmaids/"
    );
    assert_eq!(candidates[0].score, 100);
}

#[test]
fn parses_search_page_rows_and_skips_non_games() {
    let html = [
        r#"<a href="https://store.steampowered.com/app/1145360/Hades/?snr=1" class="row"><span class="title">Hades</span></a>"#,
        r#"<a href="https://store.steampowered.com/app/1145350/Hades_Soundtrack/" class="row"><span class="title">Hades Original Soundtrack</span></a>"#,
        r#"<a href="https://store.steampowered.com/app/1145360/Hades/"><span class="title">Hades again</span></a>"#,
        r#"<A HREF="https://store.steampowered.com/app/42/Tom_&amp;_Jerry/"><SPAN CLASS="search title">Tom &amp; <b>Jerry</b></SPAN></A>"#,
        r#"<a href="https://store.steampowered.com/app/77/No_Title/"><div class="other">x</div></a>"#,
    ]
    .join("");
    let links = extract_search_links(&html);
    assert_eq!(links.len(), 2);
    assert_eq!(links[0].app_id, "1145360");
    assert_eq!(links[0].title, "Hades");
    assert_eq!(links[0].url, "https://store.steampowered.com/app/1145360/Hades/");
    assert_eq!(links[1].app_id, "42");
    assert_eq!(links[1].title, "Tom & Jerry");
    assert_eq!(links[1].url, "https://store.steampowered.com/app/42/Tom_&_Jerry/");
}

#[test]
fn title_word_must_stand_alone_in_class() {
    let html = r#"<a href="https://store.steampowered.com/app/5/Five/"><span class="subtitle">Five</span></a>"#;
    assert_eq!(extract_search_links(html).len(), 0);
}

#[test]
fn ranking_orders_by_score_and_labels_confidence() {
    let html = [
        r#"<a href="https://store.steampowered.com/app/1/Dragon_Quest/"><span class="title">Dragon Quest</span></a>"#,
        r#"<a href="https://store.steampowered.com/app/2/Dragon_Island/"><span class="title">Dragon Island</span></a>"#,
    ]
    .join("");
    let links = extract_search_links(&html);
    let ranked = rank_search_links(&links, &vec![44, 100]);
    assert_eq!(ranked[0].app_id, "2");
    assert_eq!(ranked[0].confidence, "高");
    assert_eq!(ranked[0].kind, "游戏本体");
    assert_eq!(ranked[1].confidence, "低");
    assert!(!needs_suggestions(&ranked));
    assert!(needs_suggestions(&Vec::new()));
}

#[test]
fn containment_bonus_and_clamp() {
    let texts = ScoreTexts {
        query: "rogue trader".to_string(),
        title: "warhammer rogue trader".to_string(),
        compact_query: "roguetrader".to_string(),
        compact_title: "warhammerroguetrader".to_string(),
    };
    assert_eq!(finish_title_score(60, &texts), 92);
    assert_eq!(finish_title_score(95, &texts), 95);
    assert_eq!(finish_title_score(150, &texts), 100);
    let short = ScoreTexts {
        query: "ori".to_string(),
        title: "ori and the blind forest".to_string(),
        compact_query: "ori".to_string(),
        compact_title: "oriandtheblindforest".to_string(),
    };
    assert_eq!(finish_title_score(20, &short), 84);
    assert_eq!(finish_title_score(-3, &ScoreTexts {
        query: "a".to_string(),
        title: "b".to_string(),
        compact_query: "a".to_string(),
        compact_title: "b".to_string(),
    }), 0);
}

#[test]
fn score_texts_decode_and_normalise() {
    let t = score_texts("Tom & Jerry", "Tom &amp; JERRY").unwrap();
    assert_eq!(t.query, "tom & jerry");
    assert_eq!(t.title, "tom & jerry");
    assert_eq!(t.compact_query, "tomjerry");
    assert!(score_texts("   ", "x").is_none());
    assert_eq!(title_score("Hades", "Hades"), 100);
}

#[test]
fn search_addresses_encode_query() {
    assert_eq!(
        search_url("Corpse Keeper", "english"),
        "https://store.steampowered.com/search/?term=Corpse%20Keeper&category1=998&ndl=1&l=english"
    );
    assert_eq!(
        suggest_url("悟空", "schinese"),
        "https://store.steampowered.com/search/suggest?term=%E6%82%9F%E7%A9%BA&f=games&cc=US&realm=1&l=schinese"
    );
    assert_eq!(search_cache_key("Hades (Steam Key)", "english"), "v2:english:hades");
}
