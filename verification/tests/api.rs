use typenx_addon_anilist::api::{
    anime_plan, catalog_page, catalog_plan, catalog_variables, check_reply, clamp_limit, manga_plan,
    media_reply, media_type_of, page_reply, positive_id, search_plan, skip_to_page, AniListError,
    AniListQuery,
};
use typenx_addon_anilist::mapping::AniListMedia;
use typenx_addon_anilist::server::{health, manifest};
use typenx_addon_anilist::types::{AddonResource, CatalogRequest, ContentType, SearchRequest};

#[test]
fn limits_and_pages() {
    assert_eq!(clamp_limit(None), 24);
    assert_eq!(clamp_limit(Some(0)), 1);
    assert_eq!(clamp_limit(Some(500)), 50);
    assert_eq!(skip_to_page(None, 24), 1);
    assert_eq!(skip_to_page(Some(48), 24), 3);
    assert_eq!(skip_to_page(Some(47), 24), 2);
}

#[test]
fn media_types_and_sorts() {
    assert_eq!(media_type_of(None, "manga-rated"), "MANGA");
    assert_eq!(media_type_of(Some(ContentType::Manhwa), "popular"), "MANGA");
    assert_eq!(media_type_of(Some(ContentType::Movie), "popular"), "ANIME");
    assert_eq!(media_type_of(None, "trending"), "ANIME");
    assert_eq!(catalog_variables("manga-trending").sort, "TRENDING_DESC");
    assert_eq!(catalog_variables("airing").status, Some("RELEASING"));
    assert_eq!(catalog_variables("manga-rated").sort, "SCORE_DESC");
    assert_eq!(catalog_variables("anything").sort, "POPULARITY_DESC");
    assert_eq!(catalog_variables("anything").status, None);
}

#[test]
fn catalog_requests_with_text_become_searches() {
    let plan = catalog_plan(&CatalogRequest {
        catalog_id: "manga-popular".into(),
        query: Some(" frieren ".into()),
        limit: Some(10),
        ..Default::default()
    });
    match plan {
        AniListQuery::Search(v) => {
            assert_eq!(v.search, "frieren");
            assert_eq!(v.per_page, 10);
            assert_eq!(v.page, 1);
            assert_eq!(v.media_type, "ANIME");
        }
        other => panic!("expected a search, got {other:?}"),
    }
    let plan = catalog_plan(&CatalogRequest {
        catalog_id: "manga-trending".into(),
        query: Some("   ".into()),
        skip: Some(30),
        ..Default::default()
    });
    match plan {
        AniListQuery::CatalogPage(v) => {
            assert_eq!(v.page, 1);
            assert_eq!(v.sort.sort, "POPULARITY_DESC");
            assert_eq!(v.media_type, "ANIME");
        }
        other => panic!("expected the popular page, got {other:?}"),
    }
    let plan = catalog_plan(&CatalogRequest {
        catalog_id: "manga-trending".into(),
        query: Some("".into()),
        skip: Some(30),
        limit: Some(10),
        ..Default::default()
    });
    match plan {
        AniListQuery::CatalogPage(v) => {
            assert_eq!(v.page, 4);
            assert_eq!(v.per_page, 10);
            assert_eq!(v.sort.sort, "TRENDING_DESC");
            assert_eq!(v.media_type, "MANGA");
        }
        other => panic!("expected a catalog page, got {other:?}"),
    }
    assert!(catalog_plan(&CatalogRequest::default()).document().starts_with("query TypenxCatalog("));
    let search = search_plan(&SearchRequest { query: "x".into(), content_type: Some(ContentType::Manga), ..Default::default() });
    assert!(search.document().starts_with("query TypenxSearch("));
    assert!(search.document().ends_with(" } } }"));
}

#[test]
fn ids_parse_as_positive_numbers() {
    assert_eq!(positive_id("42"), Some(42));
    assert_eq!(positive_id("+7"), Some(7));
    assert_eq!(positive_id("0"), None);
    assert_eq!(positive_id("-3"), None);
    assert_eq!(positive_id(""), None);
    assert_eq!(positive_id("+"), None);
    assert_eq!(positive_id("12a"), None);
    assert_eq!(positive_id(" 1"), None);
    assert_eq!(positive_id("9223372036854775807"), Some(i64::MAX));
    assert_eq!(positive_id("9223372036854775808"), None);
}

#[test]
fn media_plans_and_their_errors() {
    match anime_plan("21") {
        Ok(AniListQuery::Media(v)) => {
            assert_eq!(v.id, 21);
            assert_eq!(v.media_type, "ANIME");
        }
        other => panic!("unexpected {other:?}"),
    }
    assert!(anime_plan("21").unwrap().document().starts_with("query TypenxMedia("));
    let err = manga_plan("abc").unwrap_err();
    assert_eq!(err.message(), "Invalid AniList manga id: abc");
    let err = media_reply(None, "5", "anime").unwrap_err();
    assert_eq!(err.message(), "AniList anime not found: 5");
    let ok = media_reply(Some(AniListMedia { id: 5, ..Default::default() }), "5", "anime").unwrap();
    assert_eq!(ok.id, "5");
}

#[test]
fn replies_are_judged_in_order() {
    assert_eq!(check_reply(200, None, Some(1)), Ok(1));
    assert_eq!(check_reply(201, Some(vec![]), Some(1)), Ok(1));
    assert_eq!(check_reply(404, Some(vec![Some("x".into())]), Some(1)), Err(AniListError::Status(404)));
    assert_eq!(AniListError::Status(404).message(), "AniList returned 404");
    let err = check_reply(200, Some(vec![Some("a".into()), None, Some("b".into())]), Some(1)).unwrap_err();
    assert_eq!(err.message(), "a; b");
    assert_eq!(check_reply::<u8>(200, None, None), Err(AniListError::MissingData));
    assert_eq!(AniListError::MissingData.message(), "AniList response did not include data");
    assert_eq!(AniListError::Transport.message(), "failed to call AniList");
    assert_eq!(AniListError::EmptyResponse.message(), "AniList returned an empty response");
}

#[test]
fn pages_map_each_title() {
    let page = page_reply(&vec![AniListMedia { id: 1, ..Default::default() }, AniListMedia { id: 2, ..Default::default() }]);
    assert_eq!(page.items.len(), 2);
    assert_eq!(page.items[1].id, "2");
}

#[test]
fn manifest_declares_resources_and_catalogs() {
    let m = manifest();
    assert_eq!(m.id, "typenx-addon-anilist");
    assert_eq!(m.version, "0.1.0");
    assert_eq!(m.resources, vec![
        AddonResource::Catalog,
        AddonResource::Search,
        AddonResource::AnimeMeta,
        AddonResource::Recommendations,
    ]);
    assert_eq!(m.catalogs.len(), 6);
    for c in &m.catalogs {
        let expected = if c.content_type == ContentType::Manga { "MANGA" } else { "ANIME" };
        assert_eq!(media_type_of(Some(c.content_type), &c.id), expected);
        assert!(c.filters.is_empty());
    }
    assert!(health().ok);
    assert_eq!(health().message, None);
}


#[test]
fn catalog_pages_take_any_positive_size() {
    match catalog_page("airing", None, Some(250), 100) {
        AniListQuery::CatalogPage(v) => {
            assert_eq!(v.page, 3);
            assert_eq!(v.per_page, 100);
            assert_eq!(v.media_type, "ANIME");
        }
        _ => panic!("expected a catalog page"),
    }
}
