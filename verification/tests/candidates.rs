use steam_link_matcher::candidate::{initial_query_variants, merge_candidates, push_unique, Candidate};

fn candidate(app_id: &str, title: &str, url: &str, score: i32, confidence: &str) -> Candidate {
    Candidate {
        app_id: app_id.to_string(),
        title: title.to_string(),
        url: url.to_string(),
        score,
        confidence: confidence.to_string(),
        kind: "游戏本体".to_string(),
    }
}

#[test]
fn merge_candidates_prefers_better_score() {
    let mut candidates = vec![candidate(
        "1",
        "Dragon Quest",
        "https://store.steampowered.com/app/1/Dragon_Quest/",
        44,
        "低",
    )];
    merge_candidates(
        &mut candidates,
        vec![candidate(
            "1554470",
            "Dragon Island",
            "https://store.steampowered.com/app/1554470/Dragon_Island/",
            100,
            "高",
        )],
    );
    assert_eq!(candidates[0].app_id, "1554470");
    assert_eq!(candidates[0].score, 100);
}

#[test]
fn merge_keeps_higher_existing_score() {
    let mut candidates = vec![candidate("7", "Seven", "u7", 90, "高")];
    merge_candidates(&mut candidates, vec![candidate("7", "Seven Again", "u7b", 60, "低")]);
    assert_eq!(candidates.len(), 1);
    assert_eq!(candidates[0].title, "Seven");
    assert_eq!(candidates[0].score, 90);
}

#[test]
fn merge_replaces_with_higher_score() {
    let mut candidates = vec![candidate("7", "Seven", "u7", 60, "低")];
    merge_candidates(&mut candidates, vec![candidate("7", "Seven Better", "u7b", 95, "高")]);
    assert_eq!(candidates.len(), 1);
    assert_eq!(candidates[0].title, "Seven Better");
    assert_eq!(candidates[0].score, 95);
}

#[test]
fn merge_keeps_at_most_eight_sorted_stably() {
    let mut candidates = Vec::new();
    let news: Vec<Candidate> = (0..10)
        .map(|i| candidate(&i.to_string(), &format!("T{}", i), "u", if i % 2 == 0 { 50 } else { 70 }, "低"))
        .collect();
    merge_candidates(&mut candidates, news);
    assert_eq!(candidates.len(), 8);
    let ids: Vec<&str> = candidates.iter().map(|c| c.app_id.as_str()).collect();
    assert_eq!(ids, vec!["1", "3", "5", "7", "9", "0", "2", "4"]);
}

#[test]
fn sort_candidates_is_stable_descending() {
    let v = vec![
        candidate("a", "A", "u", 10, "低"),
        candidate("b", "B", "u", 30, "低"),
        candidate("c", "C", "u", 10, "低"),
        candidate("d", "D", "u", 30, "低"),
    ];
    let s = steam_link_matcher::candidate::sort_candidates(&v);
    let ids: Vec<&str> = s.iter().map(|c| c.app_id.as_str()).collect();
    assert_eq!(ids, vec!["b", "d", "a", "c"]);
}

#[test]
fn push_unique_skips_blank_and_equivalent() {
    let mut values: Vec<String> = Vec::new();
    push_unique(&mut values, "  Elden Ring  ".to_string());
    push_unique(&mut values, "   ".to_string());
    push_unique(&mut values, "ELDEN   RING".to_string());
    push_unique(&mut values, "Hades".to_string());
    assert_eq!(values, vec!["Elden Ring".to_string(), "Hades".to_string()]);
}

#[test]
fn query_variants_cleaned_first_then_original() {
    let q = initial_query_variants("Corpse Keeper(2026.7.1到期)", "Corpse Keeper");
    assert_eq!(q, vec!["Corpse Keeper".to_string(), "Corpse Keeper(2026.7.1到期)".to_string()]);
    let same = initial_query_variants("Hades", "hades");
    assert_eq!(same, vec!["hades".to_string()]);
}
