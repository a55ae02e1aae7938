use typenx_addon_anilist::mapping::{
    to_metadata, to_preview, unique_strings, AniListAiringEpisode, AniListAiringSchedule,
    AniListCoverImage, AniListExternalLink, AniListFuzzyDate, AniListMedia, AniListRanking,
    AniListStaff, AniListStaffEdge, AniListStaffName, AniListStaffNode, AniListStreamingEpisode,
    AniListStudio, AniListStudios, AniListTag, AniListTitle, AniListTrailer,
};
use typenx_addon_anilist::api::media_type_of;
use typenx_addon_anilist::types::ContentType;

#[test]
fn maps_manga_metadata_without_episodes() {
    let media = AniListMedia {
        id: 42,
        media_type: Some("MANGA".into()),
        title: Some(AniListTitle {
            english: Some("Frieren".into()),
            romaji: Some("Sousou no Frieren".into()),
            native: Some("葬送のフリーレン".into()),
        }),
        format: Some("MANGA".into()),
        chapters: Some(130),
        volumes: Some(13),
        season: Some("SPRING".into()),
        start_date: Some(AniListFuzzyDate {
            year: Some(2020),
            month: None,
            day: None,
        }),
        genres: Some(vec!["Fantasy".into()]),
        tags: Some(vec![AniListTag {
            name: Some("Magic".into()),
            rank: Some(90),
            is_media_spoiler: Some(false),
        }]),
        ..Default::default()
    };

    let mapped = to_metadata(&media);
    assert_eq!(mapped.content_type, ContentType::Manga);
    assert_eq!(mapped.episode_count, Some(130));
    assert_eq!(mapped.season, None);
    assert_eq!(mapped.season_year, Some(2020));
    assert!(mapped.episodes.is_empty());
    assert_eq!(
        mapped.alternative_titles,
        vec!["Sousou no Frieren", "葬送のフリーレン"]
    );
}

#[test]
fn maps_anime_episode_schedule_and_links() {
    let media = AniListMedia {
        id: 7,
        media_type: Some("ANIME".into()),
        title: Some(AniListTitle {
            english: None,
            romaji: Some("Test Show".into()),
            native: None,
        }),
        episodes: Some(2),
        duration: Some(24),
        trailer: Some(AniListTrailer {
            id: Some("abc".into()),
            site: Some("youtube".into()),
        }),
        streaming_episodes: Some(vec![AniListStreamingEpisode {
            title: Some("Pilot".into()),
            thumbnail: Some("img".into()),
            site: Some("Crunchyroll".into()),
        }]),
        airing_schedule: Some(AniListAiringSchedule {
            nodes: Some(vec![AniListAiringEpisode {
                episode: Some(2),
                airing_at: Some(1_700_000_000),
            }]),
        }),
        ..Default::default()
    };

    let mapped = to_metadata(&media);
    assert_eq!(
        mapped.trailer_url,
        Some("https://www.youtube.com/watch?v=abc".into())
    );
    assert_eq!(mapped.episodes.len(), 2);
    assert_eq!(mapped.episodes[0].title, Some("Pilot".into()));
    assert_eq!(mapped.episodes[1].title, Some("Episode 2".into()));
    assert_eq!(
        mapped.episodes[1].aired_at,
        Some("2023-11-14T22:13:20.000Z".into())
    );
}

#[test]
fn episode_ids_sources_and_counts_follow_the_schedule() {
    let media = AniListMedia {
        id: 9,
        media_type: Some("ANIME".into()),
        episodes: Some(1),
        duration: Some(23),
        streaming_episodes: Some(vec![AniListStreamingEpisode {
            title: None,
            thumbnail: None,
            site: Some("Hidive".into()),
        }]),
        airing_schedule: Some(AniListAiringSchedule {
            nodes: Some(vec![
                AniListAiringEpisode { episode: Some(3), airing_at: Some(0) },
                AniListAiringEpisode { episode: None, airing_at: Some(5) },
                AniListAiringEpisode { episode: Some(3), airing_at: Some(86_400) },
            ]),
        }),
        ..Default::default()
    };
    let mapped = to_metadata(&media);
    assert_eq!(mapped.episodes.len(), 3);
    assert_eq!(mapped.episodes[0].id, "9:1");
    assert_eq!(mapped.episodes[0].anime_id, "9");
    assert_eq!(mapped.episodes[0].number, 1);
    assert_eq!(mapped.episodes[0].title, Some("Episode 1".into()));
    assert_eq!(mapped.episodes[0].source, Some("Hidive".into()));
    assert_eq!(mapped.episodes[0].duration_minutes, Some(23));
    assert_eq!(mapped.episodes[1].source, None);
    assert_eq!(mapped.episodes[1].aired_at, None);
    // The last schedule entry for an episode wins.
    assert_eq!(mapped.episodes[2].aired_at, Some("1970-01-02T00:00:00.000Z".into()));
    assert_eq!(mapped.episode_count, Some(1));
}

#[test]
fn titles_images_and_descriptions_fall_back_in_order() {
    let media = AniListMedia {
        id: 11,
        title: Some(AniListTitle { romaji: None, english: None, native: Some("Native".into()) }),
        synonyms: Some(vec!["  Native ".into(), "Other".into(), "".into(), "Other".into()]),
        description: Some("  Line<br>two<br/>three<br />four <i>x</i>  ".into()),
        cover_image: Some(AniListCoverImage { extra_large: None, large: Some("L".into()), medium: Some("M".into()) }),
        ..Default::default()
    };
    let mapped = to_metadata(&media);
    assert_eq!(mapped.title, "Native");
    assert_eq!(mapped.original_title, Some("Native".into()));
    assert_eq!(mapped.alternative_titles, vec!["Other"]);
    assert_eq!(mapped.synopsis, Some("Line\ntwo\nthree\nfour x".into()));
    assert_eq!(mapped.description, mapped.synopsis);
    assert_eq!(mapped.poster, Some("L".into()));
    assert_eq!(mapped.banner, Some("L".into()));

    let untitled = AniListMedia { id: 12, description: Some(" <i></i> ".into()), ..Default::default() };
    let preview = to_preview(&untitled);
    assert_eq!(preview.title, "12");
    assert_eq!(preview.synopsis, None);
    assert_eq!(preview.poster, None);
}

#[test]
fn anime_fields_are_lowercased_and_scored() {
    let media = AniListMedia {
        id: 21,
        media_type: Some("ANIME".into()),
        format: Some("MOVIE".into()),
        season: Some("SPRING".into()),
        status: Some("FINISHED".into()),
        source: Some("ORIGINAL".into()),
        season_year: None,
        start_date: Some(AniListFuzzyDate { year: Some(1999), month: Some(4), day: None }),
        end_date: Some(AniListFuzzyDate { year: None, month: Some(1), day: Some(1) }),
        average_score: None,
        mean_score: Some(77),
        updated_at: Some(0),
        ..Default::default()
    };
    let mapped = to_metadata(&media);
    assert_eq!(mapped.content_type, ContentType::Movie);
    assert_eq!(mapped.season, Some("spring".into()));
    assert_eq!(mapped.status, Some("finished".into()));
    assert_eq!(mapped.source, Some("original".into()));
    assert_eq!(mapped.year, Some(1999));
    assert_eq!(mapped.season_year, Some(1999));
    assert_eq!(mapped.score, Some(77));
    assert_eq!(mapped.start_date, Some("1999-04-01".into()));
    assert_eq!(mapped.end_date, None);
    assert_eq!(mapped.updated_at, Some("1970-01-01T00:00:00.000Z".into()));

    let novel = AniListMedia {
        media_type: Some("MANGA".into()),
        format: Some("NOVEL".into()),
        chapters: Some(0),
        volumes: Some(3),
        ..Default::default()
    };
    let mapped = to_metadata(&novel);
    assert_eq!(mapped.content_type, ContentType::LightNovel);
    assert_eq!(mapped.episode_count, Some(3));
    let stamp = mapped.updated_at.unwrap();
    assert_eq!(stamp.len(), 24);
    assert_eq!(&stamp[4..5], "-");
    assert_eq!(&stamp[10..11], "T");
    assert_eq!(&stamp[19..20], ".");
    assert!(stamp.ends_with('Z'));
}

#[test]
fn rank_tags_studios_staff_and_links() {
    let media = AniListMedia {
        id: 5,
        rankings: Some(vec![
            AniListRanking { rank: Some(40), ranking_type: Some("POPULAR".into()), all_time: Some(true), context: None },
            AniListRanking { rank: Some(12), ranking_type: Some("RATED".into()), all_time: Some(false), context: None },
            AniListRanking { rank: Some(3), ranking_type: Some("RATED".into()), all_time: Some(true), context: None },
        ]),
        tags: Some(vec![
            AniListTag { name: Some("Low".into()), rank: Some(10), is_media_spoiler: None },
            AniListTag { name: Some("Spoiler".into()), rank: Some(99), is_media_spoiler: Some(true) },
            AniListTag { name: Some("High".into()), rank: Some(80), is_media_spoiler: Some(false) },
            AniListTag { name: Some("Tie".into()), rank: Some(10), is_media_spoiler: None },
        ]),
        studios: Some(AniListStudios {
            nodes: Some(vec![
                AniListStudio { name: Some("Publisher".into()), is_animation_studio: Some(false) },
                AniListStudio { name: Some("Madhouse".into()), is_animation_studio: Some(true) },
            ]),
        }),
        staff: Some(AniListStaff {
            edges: Some(vec![
                AniListStaffEdge {
                    role: Some("Director".into()),
                    node: Some(AniListStaffNode { name: Some(AniListStaffName { full: Some("A. Director".into()) }) }),
                },
                AniListStaffEdge {
                    role: Some("Music".into()),
                    node: Some(AniListStaffNode { name: Some(AniListStaffName { full: Some("B. Composer".into()) }) }),
                },
                AniListStaffEdge {
                    role: Some("Original Creator".into()),
                    node: Some(AniListStaffNode { name: Some(AniListStaffName { full: Some("".into()) }) }),
                },
            ]),
        }),
        external_links: Some(vec![
            AniListExternalLink { site: Some("Site".into()), url: Some("https://x".into()) },
            AniListExternalLink { site: Some("Broken".into()), url: None },
        ]),
        trailer: Some(AniListTrailer { id: Some("x9".into()), site: Some("dailymotion".into()) }),
        ..Default::default()
    };
    let mapped = to_metadata(&media);
    assert_eq!(mapped.rank, Some(3));
    assert_eq!(mapped.tags, vec!["High", "Low", "Tie"]);
    assert_eq!(mapped.studios, vec!["Madhouse"]);
    assert_eq!(mapped.staff.len(), 2);
    assert_eq!(mapped.staff[0].name, "A. Director");
    assert_eq!(mapped.authors, vec!["A. Director"]);
    assert_eq!(mapped.external_links.len(), 1);
    assert_eq!(mapped.external_links[0].url, "https://x");
    assert_eq!(mapped.trailer_url, Some("https://www.dailymotion.com/video/x9".into()));

    let no_authors = AniListMedia {
        studios: Some(AniListStudios {
            nodes: Some(vec![AniListStudio { name: Some(" Studio ".into()), is_animation_studio: None }]),
        }),
        trailer: Some(AniListTrailer { id: Some("v".into()), site: Some("vimeo".into()) }),
        ..Default::default()
    };
    let mapped = to_metadata(&no_authors);
    assert_eq!(mapped.studios, vec!["Studio"]);
    assert_eq!(mapped.authors, vec!["Studio"]);
    assert_eq!(mapped.trailer_url, None);
}

#[test]
fn tags_keep_at_most_twelve() {
    let tags = (0..20)
        .map(|i| AniListTag { name: Some(format!("t{i}")), rank: Some(i), is_media_spoiler: None })
        .collect();
    let media = AniListMedia { tags: Some(tags), ..Default::default() };
    let mapped = to_metadata(&media);
    assert_eq!(mapped.tags.len(), 12);
    assert_eq!(mapped.tags[0], "t19");
    assert_eq!(mapped.tags[11], "t8");
}

#[test]
fn unique_strings_trims_and_drops_repeats() {
    let out = unique_strings(vec![
        Some(" a ".into()),
        None,
        Some("b".into()),
        Some("a".into()),
        Some("   ".into()),
        Some("b ".into()),
    ]);
    assert_eq!(out, vec!["a", "b"]);
}

#[test]
fn negative_years_pad_after_the_sign() {
    let media = AniListMedia {
        start_date: Some(AniListFuzzyDate { year: Some(-5), month: Some(12), day: Some(3) }),
        ..Default::default()
    };
    assert_eq!(to_metadata(&media).start_date, Some("-005-12-03".into()));
}

#[test]
fn preview_and_metadata_agree() {
    let media = AniListMedia {
        id: 31,
        media_type: Some("ANIME".into()),
        format: Some("OVA".into()),
        title: Some(AniListTitle { romaji: Some("R".into()), english: Some("E".into()), native: None }),
        description: Some("About<br>it".into()),
        cover_image: Some(AniListCoverImage { extra_large: Some("XL".into()), large: None, medium: None }),
        banner_image: Some("banner".into()),
        average_score: Some(85),
        mean_score: Some(80),
        season_year: Some(2010),
        genres: Some(vec!["Drama".into()]),
        ..Default::default()
    };
    let preview = to_preview(&media);
    let meta = to_metadata(&media);
    assert_eq!(preview.id, meta.id);
    assert_eq!(preview.title, "E");
    assert_eq!(preview.title, meta.title);
    assert_eq!(preview.poster, meta.poster);
    assert_eq!(preview.synopsis, Some("About\nit".into()));
    assert_eq!(preview.synopsis, meta.synopsis);
    assert_eq!(preview.score, Some(85));
    assert_eq!(preview.score, meta.score);
    assert_eq!(preview.year, meta.year);
    assert_eq!(preview.content_type, ContentType::Ova);
    assert_eq!(preview.content_type, meta.content_type);
    assert_eq!(preview.genres, meta.genres);
    assert_eq!(preview.banner, Some("banner".into()));
    assert_eq!(preview.season_entries, None);
}

#[test]
fn mapped_content_types_query_their_own_media_type() {
    for (kind, format, expected) in [
        ("MANGA", "NOVEL", "MANGA"),
        ("MANGA", "ONE_SHOT", "MANGA"),
        ("ANIME", "MOVIE", "ANIME"),
        ("ANIME", "TV", "ANIME"),
    ] {
        let media = AniListMedia {
            media_type: Some(kind.into()),
            format: Some(format.into()),
            ..Default::default()
        };
        let content_type = to_preview(&media).content_type;
        assert_eq!(media_type_of(Some(content_type), ""), expected);
    }
}
