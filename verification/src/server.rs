//! What the addon declares about itself.
use vstd::prelude::*;
use crate::text::{opt_view, to_owned_string};
use crate::types::{AddonHealth, AddonManifest, AddonResource, CatalogDefinition, ContentType};
use crate::api::media_type_spec;
use crate::text::has_prefix;

verus! {

broadcast use vstd::string::group_string_axioms;

/// Whether a catalog definition has this id, name and content type and no filters.
pub open spec fn catalog_def_spec(c: CatalogDefinition, id: Seq<char>, name: Seq<char>, ct: ContentType) -> bool {
    &&& c.id@ == id
    &&& c.name@ == name
    &&& c.content_type == ct
    &&& c.filters@.len() == 0
}

/// A catalog definition without filters.
pub fn catalog_def(id: &str, name: &str, content_type: ContentType) -> (r: CatalogDefinition)
    ensures
        catalog_def_spec(r, id@, name@, content_type),
{
    CatalogDefinition {
        id: to_owned_string(id),
        name: to_owned_string(name),
        content_type,
        filters: Vec::new(),
    }
}

/// The addon's manifest: its identity, the four resources it answers, and its six
/// catalogs (popular, trending and airing anime; popular, trending and top-rated manga).
pub open spec fn manifest_spec(m: AddonManifest) -> bool {
    &&& m.id@ == "typenx-addon-anilist"@
    &&& m.name@ == "AniList"@
    &&& m.version@ == "0.1.0"@
    &&& opt_view(m.description) == Some("Official Typenx metadata addon backed by AniList."@)
    &&& opt_view(m.icon) == Some("https://anilist.co/img/icons/android-chrome-512x512.png"@)
    &&& m.resources@ == seq![
        AddonResource::Catalog,
        AddonResource::Search,
        AddonResource::AnimeMeta,
        AddonResource::Recommendations,
    ]
    &&& m.catalogs@.len() == 6
    &&& catalog_def_spec(m.catalogs@[0], "popular"@, "Popular Anime"@, ContentType::Anime)
    &&& catalog_def_spec(m.catalogs@[1], "trending"@, "Trending Anime"@, ContentType::Anime)
    &&& catalog_def_spec(m.catalogs@[2], "airing"@, "Airing Anime"@, ContentType::Anime)
    &&& catalog_def_spec(m.catalogs@[3], "manga-popular"@, "Popular Manga"@, ContentType::Manga)
    &&& catalog_def_spec(m.catalogs@[4], "manga-trending"@, "Trending Manga"@, ContentType::Manga)
    &&& catalog_def_spec(m.catalogs@[5], "manga-rated"@, "Top Rated Manga"@, ContentType::Manga)
}

/// The addon's manifest.
pub fn manifest() -> (m: AddonManifest)
    ensures
        manifest_spec(m),
{
    let mut resources: Vec<AddonResource> = Vec::new();
    resources.push(AddonResource::Catalog);
    resources.push(AddonResource::Search);
    resources.push(AddonResource::AnimeMeta);
    resources.push(AddonResource::Recommendations);
    let mut catalogs: Vec<CatalogDefinition> = Vec::new();
    catalogs.push(catalog_def("popular", "Popular Anime", ContentType::Anime));
    catalogs.push(catalog_def("trending", "Trending Anime", ContentType::Anime));
    catalogs.push(catalog_def("airing", "Airing Anime", ContentType::Anime));
    catalogs.push(catalog_def("manga-popular", "Popular Manga", ContentType::Manga));
    catalogs.push(catalog_def("manga-trending", "Trending Manga", ContentType::Manga));
    catalogs.push(catalog_def("manga-rated", "Top Rated Manga", ContentType::Manga));
    let m = AddonManifest {
        id: to_owned_string("typenx-addon-anilist"),
        name: to_owned_string("AniList"),
        version: to_owned_string("0.1.0"),
        description: Some(to_owned_string("Official Typenx metadata addon backed by AniList.")),
        icon: Some(to_owned_string("https://anilist.co/img/icons/android-chrome-512x512.png")),
        resources,
        catalogs,
    };
    assert(m.resources@ =~= seq![
        AddonResource::Catalog,
        AddonResource::Search,
        AddonResource::AnimeMeta,
        AddonResource::Recommendations,
    ]);
    m
}

/// Every catalog that the manifest declares is fetched under the AniList type of its
/// content type: the manga catalogs as `MANGA`, the anime catalogs as `ANIME`.
pub proof fn lemma_manifest_catalog_types(m: AddonManifest)
    requires
        manifest_spec(m),
    ensures
        forall|i: int|
            0 <= i < m.catalogs@.len() ==> media_type_spec(
                Some((#[trigger] m.catalogs@[i]).content_type),
                m.catalogs@[i].id@,
            ) == (if m.catalogs@[i].content_type == ContentType::Manga {
                "MANGA"@
            } else {
                "ANIME"@
            }),
{
    reveal_strlit("manga-");
    reveal_strlit("popular");
    reveal_strlit("trending");
    reveal_strlit("airing");
    assert("popular"@.take(6)[0] != "manga-"@[0]);
    assert(!has_prefix("popular"@, "manga-"@));
    assert("trending"@.take(6)[0] != "manga-"@[0]);
    assert(!has_prefix("trending"@, "manga-"@));
    assert(!has_prefix("airing"@, "manga-"@));
    assert forall|i: int| 0 <= i < m.catalogs@.len() implies media_type_spec(
        Some((#[trigger] m.catalogs@[i]).content_type),
        m.catalogs@[i].id@,
    ) == (if m.catalogs@[i].content_type == ContentType::Manga {
        "MANGA"@
    } else {
        "ANIME"@
    }) by {
        assert(0 <= i < 6);
    }
}

/// The answer to a health probe: healthy, with no message.
pub fn health() -> (r: AddonHealth)
    ensures
        r.ok,
        r.message is None,
{
    AddonHealth { ok: true, message: None }
}

} // verus!
