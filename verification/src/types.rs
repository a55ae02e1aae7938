//! The Typenx addon protocol: what the addon receives and returns.
//!
//! Numbers that the protocol carries as decimals are held here in fixed point:
//! a title's score on the 0–10 scale in tenths of a point, a user's seed score in
//! thousandths, a recommendation score and a seed weight in ten-thousandths.
use vstd::prelude::*;

verus! {

/// The kind of a title.
#[derive(Debug, Clone, Copy, PartialEq, Eq)]
pub enum ContentType {
    Anime,
    Manga,
    Manhwa,
    Manhua,
    LightNovel,
    Movie,
    Ova,
    Ona,
    Special,
}

/// A season of a multi-season title.
#[derive(Debug, Clone, PartialEq, Default)]
pub struct SeasonEntry {
    pub id: String,
    pub title: String,
    pub season_number: Option<u32>,
}

/// A title as it appears in a catalog or search result.
#[derive(Debug, Clone, PartialEq)]
pub struct AnimePreview {
    pub id: String,
    pub title: String,
    pub poster: Option<String>,
    pub banner: Option<String>,
    pub synopsis: Option<String>,
    /// Community score on the 0–10 scale, in tenths of a point.
    pub score: Option<u32>,
    pub year: Option<i32>,
    pub content_type: ContentType,
    pub genres: Vec<String>,
    pub season_entries: Option<Vec<SeasonEntry>>,
}

/// A person credited on a title.
#[derive(Debug, Clone, PartialEq)]
pub struct StaffCredit {
    pub name: String,
    pub role: Option<String>,
}

/// A link to a page about the title on another site.
#[derive(Debug, Clone, PartialEq)]
pub struct ExternalLink {
    pub site: String,
    pub url: String,
}

/// One episode of a title.
#[derive(Debug, Clone, PartialEq)]
pub struct EpisodeMetadata {
    pub id: String,
    pub anime_id: String,
    pub season_number: Option<u32>,
    pub number: u32,
    pub title: Option<String>,
    pub synopsis: Option<String>,
    pub thumbnail: Option<String>,
    pub duration_minutes: Option<u32>,
    pub source: Option<String>,
    pub aired_at: Option<String>,
}

/// Full metadata of a title.
#[derive(Debug, Clone, PartialEq)]
pub struct AnimeMetadata {
    pub id: String,
    pub title: String,
    pub original_title: Option<String>,
    pub alternative_titles: Vec<String>,
    pub synopsis: Option<String>,
    pub description: Option<String>,
    pub poster: Option<String>,
    pub banner: Option<String>,
    pub year: Option<i32>,
    pub season: Option<String>,
    pub season_year: Option<i32>,
    pub status: Option<String>,
    pub content_type: ContentType,
    pub source: Option<String>,
    pub duration_minutes: Option<u32>,
    pub episode_count: Option<u32>,
    /// Community score on the 0–10 scale, in tenths of a point.
    pub score: Option<u32>,
    pub rank: Option<u32>,
    pub popularity: Option<u32>,
    pub rating: Option<String>,
    pub genres: Vec<String>,
    pub tags: Vec<String>,
    pub authors: Vec<String>,
    pub studios: Vec<String>,
    pub staff: Vec<StaffCredit>,
    pub country_of_origin: Option<String>,
    pub start_date: Option<String>,
    pub end_date: Option<String>,
    pub site_url: Option<String>,
    pub trailer_url: Option<String>,
    pub external_links: Vec<ExternalLink>,
    pub episodes: Vec<EpisodeMetadata>,
    pub updated_at: Option<String>,
}

/// A request for one page of a catalog, or a search when `query` is set.
#[derive(Debug, Clone, PartialEq, Default)]
pub struct CatalogRequest {
    pub addon_id: Option<String>,
    pub catalog_id: String,
    pub content_type: Option<ContentType>,
    pub query: Option<String>,
    pub skip: Option<u32>,
    pub limit: Option<u32>,
}

/// A full-text search request.
#[derive(Debug, Clone, PartialEq, Default)]
pub struct SearchRequest {
    pub addon_id: Option<String>,
    pub query: String,
    pub content_type: Option<ContentType>,
    pub limit: Option<u32>,
}

/// A page of titles.
#[derive(Debug, Clone, PartialEq, Default)]
pub struct CatalogResponse {
    pub items: Vec<AnimePreview>,
}

/// A title that the user liked or disliked.
#[derive(Debug, Clone, PartialEq, Default)]
pub struct RecommendationSeed {
    pub anime_id: String,
    /// The user's score on the 0–10 scale, in thousandths of a point.
    pub score: Option<i64>,
    /// An explicit feedback strength, in ten-thousandths.
    pub weight: Option<i64>,
}

/// A request for recommendations from a like/dislike taste profile.
#[derive(Debug, Clone, PartialEq, Default)]
pub struct RecommendationRequest {
    pub liked: Vec<RecommendationSeed>,
    pub disliked: Vec<RecommendationSeed>,
    pub limit: Option<u32>,
    pub candidate_limit: Option<u32>,
    pub include_reasons: Option<bool>,
}

/// A recommended title with its score and the reasons for it.
#[derive(Debug, Clone, PartialEq)]
pub struct RecommendationPreview {
    pub preview: AnimePreview,
    /// The ranking score, in ten-thousandths.
    pub recommendation_score: i128,
    pub reasons: Option<Vec<String>>,
}

/// Recommended titles, best first.
#[derive(Debug, Clone, PartialEq, Default)]
pub struct RecommendationResponse {
    pub items: Vec<RecommendationPreview>,
}

/// A kind of request that an addon answers.
#[derive(Debug, Clone, Copy, PartialEq, Eq)]
pub enum AddonResource {
    Catalog,
    Search,
    AnimeMeta,
    Recommendations,
}

/// A catalog that an addon offers.
#[derive(Debug, Clone, PartialEq)]
pub struct CatalogDefinition {
    pub id: String,
    pub name: String,
    pub content_type: ContentType,
    pub filters: Vec<String>,
}

/// What an addon is and what it offers.
#[derive(Debug, Clone, PartialEq)]
pub struct AddonManifest {
    pub id: String,
    pub name: String,
    pub version: String,
    pub description: Option<String>,
    pub icon: Option<String>,
    pub resources: Vec<AddonResource>,
    pub catalogs: Vec<CatalogDefinition>,
}

/// The answer to a health probe.
#[derive(Debug, Clone, PartialEq)]
pub struct AddonHealth {
    pub ok: bool,
    pub message: Option<String>,
}

} // verus!
