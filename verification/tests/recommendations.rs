use typenx_addon_anilist::recommendations::{
    build_profile, diversify, normalize, rank_candidates, recommendation_plan, score_candidate,
    score_preview_for_test, scored_seed, seed_weight, seeds_within_limits, unique_by_id,
    ScoredSeed, SeedLookup,
};
use typenx_addon_anilist::types::{
    AnimeMetadata, AnimePreview, ContentType, RecommendationPreview, RecommendationRequest,
    RecommendationSeed,
};

/// A weight on the protocol's decimal scale, in ten-thousandths.
fn weight(value: f64) -> i64 {
    (value * 10_000.0).round() as i64
}

/// A user's score on the 0–10 scale, in thousandths.
fn thousandths(value: f64) -> i64 {
    (value * 1_000.0).round() as i64
}

fn preview(id: &str, genres: &[&str], year: i32, score: f64) -> AnimePreview {
    AnimePreview {
        id: id.into(),
        title: id.into(),
        poster: None,
        banner: None,
        synopsis: None,
        score: Some((score * 10.0).round() as u32),
        year: Some(year),
        content_type: ContentType::Anime,
        genres: genres.iter().map(|value| value.to_string()).collect(),
        season_entries: None,
    }
}

fn metadata(id: &str, genres: &[&str], tags: &[&str], year: Option<i32>) -> AnimeMetadata {
    AnimeMetadata {
        id: id.into(),
        title: id.into(),
        original_title: None,
        alternative_titles: vec![],
        synopsis: None,
        description: None,
        poster: None,
        banner: None,
        year,
        season: None,
        season_year: year,
        status: None,
        content_type: ContentType::Anime,
        source: None,
        duration_minutes: Some(24),
        episode_count: None,
        score: None,
        rank: None,
        popularity: None,
        rating: None,
        genres: genres.iter().map(|value| value.to_string()).collect(),
        tags: tags.iter().map(|value| value.to_string()).collect(),
        authors: vec![],
        studios: vec![],
        staff: vec![],
        country_of_origin: None,
        start_date: None,
        end_date: None,
        site_url: None,
        trailer_url: None,
        external_links: vec![],
        episodes: vec![],
        updated_at: None,
    }
}

#[test]
fn seed_weight_matches_typescript_clamps() {
    assert_eq!(
        seed_weight(&RecommendationSeed {
            anime_id: "1".into(),
            score: None,
            weight: Some(weight(9.0))
        }) as f64
            / 10_000.0,
        3.0
    );
    assert_eq!(
        seed_weight(&RecommendationSeed {
            anime_id: "1".into(),
            score: Some(thousandths(10.0)),
            weight: None
        }) as f64
            / 10_000.0,
        2.0
    );
    assert_eq!(
        seed_weight(&RecommendationSeed {
            anime_id: "1".into(),
            score: Some(thousandths(5.0)),
            weight: None
        }) as f64
            / 10_000.0,
        0.2
    );
}

#[test]
fn matching_genres_and_era_score_higher() {
    let seed = AnimeMetadata {
        id: "seed".into(),
        title: "Seed".into(),
        original_title: None,
        alternative_titles: vec![],
        synopsis: None,
        description: None,
        poster: None,
        banner: None,
        year: Some(2021),
        season: None,
        season_year: Some(2021),
        status: None,
        content_type: ContentType::Anime,
        source: None,
        duration_minutes: Some(24),
        episode_count: None,
        score: None,
        rank: None,
        popularity: None,
        rating: None,
        genres: vec!["Action".into(), "Fantasy".into()],
        tags: vec!["Magic".into()],
        authors: vec![],
        studios: vec![],
        staff: vec![],
        country_of_origin: None,
        start_date: None,
        end_date: None,
        site_url: None,
        trailer_url: None,
        external_links: vec![],
        episodes: vec![],
        updated_at: None,
    };

    let close = score_preview_for_test(
        preview("close", &["Action", "Fantasy"], 2020, 7.0),
        seed.clone(),
    );
    let far = score_preview_for_test(preview("far", &["Slice of Life"], 1980, 10.0), seed);
    assert!(close.recommendation_score > far.recommendation_score);
    assert!(close.reasons.unwrap().contains(&"action".into()));
}

#[test]
fn seed_weight_defaults_and_lower_clamps() {
    let seed = |score: Option<i64>, weight: Option<i64>| RecommendationSeed { anime_id: "x".into(), score, weight };
    assert_eq!(seed_weight(&seed(None, None)), 10_000);
    assert_eq!(seed_weight(&seed(None, Some(0))), 1_000);
    assert_eq!(seed_weight(&seed(Some(thousandths(3.0)), None)), 8_000);
    assert_eq!(seed_weight(&seed(Some(thousandths(7.25)), None)), 9_000);
    assert_eq!(seed_weight(&seed(Some(thousandths(-100.0)), None)), 20_000);
    assert_eq!(seed_weight(&seed(Some(thousandths(3.0)), Some(weight(1.5)))), 15_000);
    let liked = scored_seed(&seed(Some(thousandths(10.0)), None), metadata("a", &[], &[], None), true);
    let disliked = scored_seed(&seed(Some(thousandths(10.0)), None), metadata("b", &[], &[], None), false);
    assert_eq!(liked.weight, 20_000);
    assert_eq!(disliked.weight, -20_000);
}

#[test]
fn exact_scores_of_the_reference_candidates() {
    let seed = metadata("seed", &["Action", "Fantasy"], &["Magic"], Some(2021));
    // 0.72 * 4 / sqrt(4) + 0.18 * 0.7 + 0.1 * 0.95 = 1.661
    let close = score_preview_for_test(preview("close", &["Action", "Fantasy"], 2020, 7.0), seed.clone());
    assert_eq!(close.recommendation_score, 16_610);
    assert_eq!(
        close.reasons,
        Some(vec!["action".to_string(), "fantasy".to_string(), "anime".to_string()])
    );
    // 0.72 * 1 / sqrt(3) + 0.18 * 1.0 + 0.1 * 0 = 0.595692...
    let far = score_preview_for_test(preview("far", &["Slice of Life"], 1980, 10.0), seed.clone());
    assert_eq!(far.recommendation_score, 5_957);
    assert_eq!(
        far.reasons,
        Some(vec!["anime".to_string(), "strong community score".to_string()])
    );
    // No shared feature, unknown year: 0 + 0 + 0.1 * 0.25.
    let mut unknown = preview("unknown", &["Sports"], 2000, 0.0);
    unknown.year = None;
    unknown.score = None;
    unknown.content_type = ContentType::Movie;
    let scored = score_preview_for_test(unknown, seed);
    assert_eq!(scored.recommendation_score, 250);
    assert_eq!(scored.reasons, None);
}

#[test]
fn normalize_builds_slugs() {
    assert_eq!(normalize("  Slice of Life "), "slice-of-life");
    assert_eq!(normalize("Sci-Fi!!"), "sci-fi");
    assert_eq!(normalize("--Mahou  Shoujo--"), "mahou-shoujo");
    assert_eq!(normalize("Ä ÖK"), "k");
    assert_eq!(normalize("   "), "");
}

fn scored(id: &str, genres: &[&str], score: i128) -> RecommendationPreview {
    RecommendationPreview { preview: preview(id, genres, 2000, 5.0), recommendation_score: score, reasons: None }
}

#[test]
fn diversify_limits_repeats_of_a_genre() {
    let items: Vec<_> = (0..8).map(|i| scored(&format!("a{i}"), &["Action"], 100 - i)).collect();
    let mut items = items;
    items.push(scored("b", &["Drama"], 1));
    let out = diversify(items, 6);
    let ids: Vec<_> = out.iter().map(|r| r.preview.id.clone()).collect();
    assert_eq!(ids, vec!["a0", "a1", "a2", "a3", "b"]);

    let few = diversify(vec![scored("x", &["A"], 3), scored("y", &["B"], 2)], 1);
    assert_eq!(few.len(), 1);
    assert_eq!(few[0].preview.id, "x");
}

#[test]
fn unique_by_id_keeps_first_occurrences() {
    let out = unique_by_id(vec![
        preview("1", &["A"], 2000, 1.0),
        preview("2", &[], 2000, 2.0),
        preview("1", &["B"], 2001, 3.0),
    ]);
    assert_eq!(out.len(), 2);
    assert_eq!(out[0].genres, vec!["A"]);
    assert_eq!(out[1].id, "2");
}

#[test]
fn ranking_excludes_seeds_and_orders_best_first() {
    let liked = vec![ScoredSeed { anime: metadata("seed", &["Action"], &[], Some(2020)), weight: 10_000 }];
    let disliked = vec![ScoredSeed { anime: metadata("bad", &["Horror"], &[], Some(2020)), weight: -10_000 }];
    let candidates = vec![
        preview("seed", &["Action"], 2020, 9.0),
        preview("horror", &["Horror"], 2020, 9.0),
        preview("action", &["Action"], 2019, 6.0),
        preview("bad", &["Action"], 2020, 9.0),
        preview("other", &["Romance"], 2020, 6.0),
    ];
    let out = rank_candidates(&liked, &disliked, candidates, 10, false);
    let ids: Vec<_> = out.iter().map(|r| r.preview.id.as_str()).collect();
    assert_eq!(ids, vec!["action", "other", "horror"]);
    assert!(out.windows(2).all(|w| w[0].recommendation_score >= w[1].recommendation_score));
    assert!(out.iter().all(|r| r.reasons.is_none()));

    let none = rank_candidates(&vec![], &disliked, vec![preview("x", &[], 2000, 5.0)], 10, true);
    assert!(none.is_empty());
}

#[test]
fn recommendation_plan_applies_defaults_and_bounds() {
    let plan = recommendation_plan(&RecommendationRequest::default());
    assert_eq!(plan.limit, 24);
    assert_eq!(plan.candidate_limit, 120);
    assert_eq!(plan.page_size, 60);
    assert!(plan.include_reasons);
    let plan = recommendation_plan(&RecommendationRequest {
        limit: Some(0),
        candidate_limit: Some(999),
        include_reasons: Some(false),
        ..Default::default()
    });
    assert_eq!(plan.limit, 1);
    assert_eq!(plan.candidate_limit, 200);
    assert_eq!(plan.page_size, 100);
    assert!(!plan.include_reasons);
    let plan = recommendation_plan(&RecommendationRequest { limit: Some(90), candidate_limit: Some(7), ..Default::default() });
    assert_eq!(plan.limit, 50);
    assert_eq!(plan.candidate_limit, 50);
    assert_eq!(plan.page_size, 25);
}

#[test]
fn higher_quality_or_closer_era_never_scores_lower() {
    let seed = metadata("seed", &["Drama"], &[], Some(2000));
    let low = score_preview_for_test(preview("a", &["Drama"], 2000, 5.0), seed.clone());
    let high = score_preview_for_test(preview("a", &["Drama"], 2000, 9.0), seed.clone());
    let older = score_preview_for_test(preview("a", &["Drama"], 1990, 9.0), seed.clone());
    let unrelated = score_preview_for_test(preview("a", &["Comedy"], 2000, 9.0), seed);
    assert!(high.recommendation_score > low.recommendation_score);
    assert!(high.recommendation_score > older.recommendation_score);
    assert!(high.recommendation_score > unrelated.recommendation_score);
}

#[test]
fn diversify_with_zero_limit_keeps_one_item() {
    let out = diversify(vec![scored("x", &["A"], 3), scored("y", &["B"], 2)], 0);
    assert_eq!(out.len(), 1);
    assert!(diversify(vec![], 5).is_empty());
}

fn seed(id: &str) -> RecommendationSeed {
    RecommendationSeed { anime_id: id.into(), score: None, weight: None }
}

#[test]
fn recommendation_plan_looks_up_named_seeds_liked_first() {
    let plan = recommendation_plan(&RecommendationRequest {
        liked: vec![seed("1"), seed(""), seed("3")],
        disliked: vec![seed(""), seed("9")],
        ..Default::default()
    });
    assert_eq!(
        plan.lookups,
        vec![
            SeedLookup { index: 0, liked: true },
            SeedLookup { index: 2, liked: true },
            SeedLookup { index: 1, liked: false },
        ]
    );
    assert!(plan.fetch_candidates);

    let plan = recommendation_plan(&RecommendationRequest {
        liked: vec![seed("")],
        disliked: vec![seed("9")],
        ..Default::default()
    });
    assert_eq!(plan.lookups, vec![SeedLookup { index: 0, liked: false }]);
    assert!(!plan.fetch_candidates);
}

#[test]
fn normalize_is_idempotent() {
    for label in ["  Slice of Life ", "Sci-Fi!!", "--Mahou  Shoujo--", "Ä ÖK", "   ", "Boys' Love", "ＡＢＣ 1\u{3000}2"] {
        let once = normalize(label);
        assert_eq!(normalize(&once), once);
    }
    assert_eq!(normalize("slice-of-life"), "slice-of-life");
}

#[test]
fn better_community_score_never_ranks_lower() {
    let liked = vec![ScoredSeed { anime: metadata("seed", &["Drama"], &[], Some(2000)), weight: 10_000 }];
    let profile = build_profile(&liked, &vec![]);
    let mut worse = preview("a", &["Drama"], 2001, 6.0);
    let better = preview("a", &["Drama"], 2001, 6.5);
    let a = score_candidate(worse.clone(), &profile, true);
    let b = score_candidate(better, &profile, true);
    assert!(a.recommendation_score <= b.recommendation_score);
    worse.score = None;
    let c = score_candidate(worse, &profile, true);
    assert!(c.recommendation_score <= a.recommendation_score);
}

#[test]
fn profile_has_an_entry_per_seed_feature() {
    let liked = vec![ScoredSeed { anime: metadata("s", &["Action", "Action"], &["Magic"], Some(2021)), weight: 20_000 }];
    let disliked = vec![ScoredSeed { anime: metadata("d", &["Action"], &[], None), weight: -5_000 }];
    let profile = build_profile(&liked, &disliked);
    let mut keys: Vec<_> = profile.entries.iter().map(|e| (e.0.as_str(), e.1)).collect();
    keys.sort();
    assert_eq!(
        keys,
        vec![("era:2020", 20_000), ("genre:action", 35_000), ("tag:magic", 20_000), ("type:anime", 15_000)]
    );
    assert_eq!(profile.year_sum, 2021);
    assert_eq!(profile.year_count, 1);
}

#[test]
fn ranking_keeps_distinct_candidates_distinct() {
    let liked = vec![ScoredSeed { anime: metadata("seed", &["Action"], &[], Some(2020)), weight: 10_000 }];
    let candidates = unique_by_id(vec![
        preview("a", &["Action"], 2020, 7.0),
        preview("b", &["Action"], 2019, 8.0),
        preview("a", &["Action"], 2020, 9.0),
        preview("c", &["Drama"], 2010, 5.0),
    ]);
    let out = rank_candidates(&liked, &vec![], candidates, 10, true);
    let mut ids: Vec<_> = out.iter().map(|r| r.preview.id.clone()).collect();
    assert_eq!(ids.len(), 3);
    ids.sort();
    ids.dedup();
    assert_eq!(ids.len(), 3);
}

#[test]
fn candidates_with_many_genres_are_scored() {
    let liked = vec![ScoredSeed { anime: metadata("seed", &["G7"], &[], Some(2020)), weight: 30_000 }];
    assert!(seeds_within_limits(&liked, &vec![]));
    let genres: Vec<String> = (0..3000).map(|i| format!("G{i}")).collect();
    let refs: Vec<&str> = genres.iter().map(|g| g.as_str()).collect();
    let wide = preview("wide", &refs, 2020, 5.0);
    let narrow = preview("narrow", &["G7"], 2020, 5.0);
    let out = rank_candidates(&liked, &vec![], vec![wide, narrow], 10, true);
    assert_eq!(out.len(), 2);
    assert_eq!(out[0].preview.id, "narrow");
    assert_eq!(out[0].reasons, Some(vec!["g7".to_string(), "anime".to_string(), "2020".to_string()]));
}

#[test]
fn seed_limits_check_weights() {
    let bad = vec![ScoredSeed { anime: metadata("seed", &["A"], &[], None), weight: 40_000 }];
    assert!(!seeds_within_limits(&bad, &vec![]));
}
