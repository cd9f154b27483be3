//! Searching the catalogue by name.

use brarr_orchestrator::fuzzy::{normalise, score, within};

#[test]
fn punctuation_and_case_and_accents_all_fold_away() {
    assert_eq!(
        normalise("Spider-Man: No Way Home"),
        "spider man no way home"
    );
    assert_eq!(normalise("Pokémon"), "pokemon");
    assert_eq!(normalise("  A Casa do Dragão  "), "a casa do dragao");
    assert_eq!(normalise("!!!"), "");
    assert_eq!(normalise("Yu-Gi-Oh!"), "yu gi oh");
}

#[test]
fn the_original_title_finds_the_anime_by_its_japanese_name() {
    let fields = [
        "That Time I Got Reincarnated as a Slime",
        "Tensei Shitara Slime Datta Ken",
    ];
    assert!(score("tensei shitara", &fields).is_some());
    assert!(score("slime datta", &fields).is_some());
    assert!(score("reincarnated", &fields).is_some());
    assert!(score("tensei shitara", &fields[..1]).is_none());
}

#[test]
fn a_prefix_outranks_a_substring_outranks_scattered_words() {
    let hay = ["The Boys"];
    let prefix = score("the b", &hay).unwrap();
    let substring = score("he bo", &hay).unwrap();
    let scattered = score("boys the", &hay).unwrap();
    assert!(prefix > substring, "{prefix} vs {substring}");
    assert!(substring > scattered, "{substring} vs {scattered}");
}

#[test]
fn an_exact_title_beats_everything() {
    let hay = ["Dexter"];
    assert_eq!(score("dexter", &hay), Some(1000));
    assert_eq!(score("DEXTER", &hay), Some(1000));
}

#[test]
fn a_typo_still_finds_the_title_and_ranks_below_a_clean_match() {
    let hay = ["Reincarnated"];
    let clean = score("reincarnated", &hay).unwrap();
    let typo = score("reincarnted", &hay).unwrap();
    assert!(typo > 0, "one dropped letter must still match");
    assert!(clean > typo, "{clean} vs {typo}");
}

#[test]
fn fewer_edits_rank_higher() {
    let hay = ["Reincarnated"];
    let one = score("reincarnted", &hay).unwrap();
    let two = score("reincrnted", &hay).unwrap();
    assert!(one > two, "one edit must outrank two: {one} vs {two}");
}

#[test]
fn the_budget_follows_the_typed_word_not_the_title() {
    assert!(score("futrma", &["Futurama"]).is_none());
    assert!(score("futurma", &["Futurama"]).is_some());
}

#[test]
fn very_short_words_are_not_allowed_to_be_wrong() {
    assert!(score("dex", &["Dexter"]).is_some(), "prefix, not a typo");
    assert!(score("zzz", &["Dexter"]).is_none());
    assert!(score("dxt", &["Dexter"]).is_none());
}

#[test]
fn an_unrelated_query_does_not_match() {
    let hay = ["The Office", "The Office"];
    assert!(score("breaking bad", &hay).is_none());
    assert!(score("xylophone", &hay).is_none());
}

#[test]
fn an_empty_query_matches_nothing_rather_than_everything() {
    assert!(score("", &["The Office"]).is_none());
    assert!(score("   ", &["The Office"]).is_none());
    assert!(score("!!!", &["The Office"]).is_none());
}

#[test]
fn an_absent_original_title_is_simply_skipped() {
    assert!(score("office", &["The Office", ""]).is_some());
    assert!(score("zzzzz", &["The Office", ""]).is_none());
}

#[test]
fn the_tiers_have_exact_scores() {
    assert_eq!(score("the b", &["The Boys"]), Some(900));
    assert_eq!(score("he bo", &["The Boys"]), Some(800));
    assert_eq!(score("boys the", &["The Boys"]), Some(700));
    assert_eq!(score("reincarnted", &["Reincarnated"]), Some(599));
}

#[test]
fn other_scripts_are_letters_too() {
    assert_eq!(normalise("未来日記!"), "未来日記");
    assert_eq!(normalise("ΣΊΣΥΦΟΣ"), normalise("σίσυφοσ"));
    assert_eq!(score("未来", &["未来日記"]), Some(900));
}

#[test]
fn a_normal_form_is_normal_already() {
    for raw in ["Spider-Man: No Way Home", "  a--b  ", "!!!", "Pokémon", "ŁÓDŹ 2"] {
        let once = normalise(raw);
        assert_eq!(normalise(&once), once);
        assert!(!once.starts_with(' ') && !once.ends_with(' ') && !once.contains("  "));
    }
}

#[test]
fn word_order_changes_no_rank_up_to_its_tier() {
    let fields = ["The Boys Presents Diabolical"];
    for (a, b) in [("the boys", "boys the"), ("diabolicl boys", "boys diabolicl")] {
        let capped = |q: &str| score(q, &fields).map(|s| s.min(700));
        assert!(capped(a).is_some());
        assert_eq!(capped(a), capped(b));
    }
    assert_eq!(score("nothing here", &fields), score("here nothing", &fields));
}

#[test]
fn scoring_normal_forms_gives_the_same_score() {
    let fields = ["Spider-Man: No Way Home", "Pokémon", "!!!"];
    let forms: Vec<String> = fields.iter().map(|f| normalise(f)).collect();
    let forms: Vec<&str> = forms.iter().map(String::as_str).collect();
    for query in ["SPIDER man", "pokemon", "way no", "spder home", "?"] {
        assert_eq!(score(&normalise(query), &forms), score(query, &fields));
    }
}

#[test]
fn a_query_written_out_of_its_words_scores_alike() {
    let fields = ["Spider-Man: No Way Home"];
    let capped = |q: &str| score(q, &fields).map(|s| s.min(700));
    assert_eq!(capped("home man spider way no"), capped("Spider-Man, no way: HOME!"));
    assert_eq!(capped("home spidre"), capped("Spidre-Home"));
}

#[test]
fn a_text_without_a_word_has_no_normal_form() {
    assert_eq!(normalise("-- ?! --"), "");
    assert_eq!(normalise("-- 7 --"), "7");
}

#[test]
fn a_further_field_never_lowers_a_score() {
    let one = score("boys", &["Boys Town"]);
    assert_eq!(score("boys", &["Boys Town", ""]), one);
    assert_eq!(score("boys", &["Boys Town", "Heat"]), one);
    assert!(score("boys", &["Boys Town", "Boys"]) > one);
}

#[test]
fn the_distance_is_exact_up_to_its_bound() {
    let chars = |s: &str| s.chars().collect::<Vec<char>>();
    let (a, b) = (chars("kitten"), chars("sitting"));
    assert_eq!(within(&a, &b, 3), Some(3));
    assert_eq!(within(&b, &a, 3), Some(3));
    assert_eq!(within(&a, &b, 2), None);
    assert_eq!(within(&a, &a, 0), Some(0));
}
