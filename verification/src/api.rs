//! The AniList GraphQL queries that answer each addon request, and how a GraphQL
//! reply is judged.
use vstd::prelude::*;
use crate::mapping::{
    content_type_spec, is_manga_spec, metadata_spec, preview_spec, to_metadata, to_preview,
    AniListMedia,
};
use crate::text::{
    chars_of, concat, decimal, has_prefix, opt_view, push_decimal, starts_with, str_eq, to_owned_string,
    trim, trim_str,
};
use crate::types::{AnimeMetadata, AnimePreview, CatalogResponse, ContentType, SearchRequest, CatalogRequest};

verus! {

broadcast use vstd::string::group_string_axioms;

// ---------------------------------------------------------------------------
// Query documents
// ---------------------------------------------------------------------------

/// The media fields that every query selects.
pub const MEDIA_FIELDS: &'static str = "
  id idMal type title { romaji english native } synonyms description(asHtml: false)
  format status season seasonYear episodes chapters volumes duration source(version: 3)
  countryOfOrigin startDate { year month day } endDate { year month day } genres
  tags { name rank isMediaSpoiler } averageScore meanScore popularity
  rankings { rank type allTime context } updatedAt siteUrl trailer { id site }
  externalLinks { site url } coverImage { extraLarge large medium } bannerImage
  studios { nodes { name isAnimationStudio } }
  staff(perPage: 12, sort: RELEVANCE) { edges { role node { name { full } } } }
  streamingEpisodes { title thumbnail site }
  airingSchedule(notYetAired: false, perPage: 25) { nodes { episode airingAt } }
";

/// The text before the media fields in the catalog query.
pub const CATALOG_QUERY_HEAD: &'static str = "query TypenxCatalog($page: Int!, $perPage: Int!, $type: MediaType!, $sort: [MediaSort], $status: MediaStatus) { Page(page: $page, perPage: $perPage) { media(type: $type, isAdult: false, sort: $sort, status: $status) { ";

/// The text before the media fields in the search query.
pub const SEARCH_QUERY_HEAD: &'static str = "query TypenxSearch($page: Int!, $perPage: Int!, $type: MediaType!, $search: String!) { Page(page: $page, perPage: $perPage) { media(type: $type, isAdult: false, search: $search, sort: SEARCH_MATCH) { ";

/// The text before the media fields in the single-title query.
pub const MEDIA_QUERY_HEAD: &'static str = "query TypenxMedia($id: Int!, $type: MediaType!) { Media(id: $id, type: $type) { ";

/// The text after the media fields in the page queries.
pub const PAGE_QUERY_TAIL: &'static str = " } } }";

/// The text after the media fields in the single-title query.
pub const MEDIA_QUERY_TAIL: &'static str = " } }";

/// The catalog page query.
pub fn catalog_query() -> (r: String)
    ensures
        r@ == CATALOG_QUERY_HEAD@ + MEDIA_FIELDS@ + PAGE_QUERY_TAIL@,
{
    let mut r = concat(CATALOG_QUERY_HEAD, MEDIA_FIELDS);
    r.append(PAGE_QUERY_TAIL);
    r
}

/// The search query.
pub fn search_query() -> (r: String)
    ensures
        r@ == SEARCH_QUERY_HEAD@ + MEDIA_FIELDS@ + PAGE_QUERY_TAIL@,
{
    let mut r = concat(SEARCH_QUERY_HEAD, MEDIA_FIELDS);
    r.append(PAGE_QUERY_TAIL);
    r
}

/// The single-title query.
pub fn media_query() -> (r: String)
    ensures
        r@ == MEDIA_QUERY_HEAD@ + MEDIA_FIELDS@ + MEDIA_QUERY_TAIL@,
{
    let mut r = concat(MEDIA_QUERY_HEAD, MEDIA_FIELDS);
    r.append(MEDIA_QUERY_TAIL);
    r
}

// ---------------------------------------------------------------------------
// Variables
// ---------------------------------------------------------------------------

/// The sort order and status filter of a catalog.
#[derive(Debug, Clone, Copy, PartialEq)]
pub struct CatalogSort {
    pub sort: &'static str,
    pub status: Option<&'static str>,
}

/// Trending catalogs sort by trend, the airing catalog by popularity among releasing
/// titles, the top-rated manga catalog by score, and every other catalog by popularity.
pub open spec fn catalog_sort_spec(catalog_id: Seq<char>) -> (Seq<char>, Option<Seq<char>>) {
    if catalog_id == "trending"@ || catalog_id == "manga-trending"@ {
        ("TRENDING_DESC"@, None)
    } else if catalog_id == "airing"@ {
        ("POPULARITY_DESC"@, Some("RELEASING"@))
    } else if catalog_id == "manga-rated"@ {
        ("SCORE_DESC"@, None)
    } else {
        ("POPULARITY_DESC"@, None)
    }
}

/// The view of a catalog sort.
pub open spec fn sort_view(s: CatalogSort) -> (Seq<char>, Option<Seq<char>>) {
    (
        s.sort@,
        match s.status {
            Some(v) => Some(v@),
            None => None,
        },
    )
}

/// The sort order and status filter of a catalog.
pub fn catalog_variables(catalog_id: &str) -> (r: CatalogSort)
    ensures
        sort_view(r) == catalog_sort_spec(catalog_id@),
{
    if str_eq(catalog_id, "trending") || str_eq(catalog_id, "manga-trending") {
        CatalogSort { sort: "TRENDING_DESC", status: None }
    } else if str_eq(catalog_id, "airing") {
        CatalogSort { sort: "POPULARITY_DESC", status: Some("RELEASING") }
    } else if str_eq(catalog_id, "manga-rated") {
        CatalogSort { sort: "SCORE_DESC", status: None }
    } else {
        CatalogSort { sort: "POPULARITY_DESC", status: None }
    }
}

/// Whether a request is for manga: a manga-like content type, or a catalog whose id
/// starts with `manga-`.
pub open spec fn wants_manga(content_type: Option<ContentType>, catalog_id: Seq<char>) -> bool {
    content_type == Some(ContentType::Manga) || content_type == Some(ContentType::Manhwa)
        || content_type == Some(ContentType::Manhua) || content_type == Some(ContentType::LightNovel)
        || has_prefix(catalog_id, "manga-"@)
}

/// The AniList media type to query: `MANGA` for manga requests, `ANIME` otherwise.
pub open spec fn media_type_spec(content_type: Option<ContentType>, catalog_id: Seq<char>) -> Seq<char> {
    if wants_manga(content_type, catalog_id) {
        "MANGA"@
    } else {
        "ANIME"@
    }
}

/// The AniList media type to query.
pub fn media_type_of(content_type: Option<ContentType>, catalog_id: &str) -> (r: &'static str)
    ensures
        r@ == media_type_spec(content_type, catalog_id@),
{
    let manga_type = match content_type {
        Some(ContentType::Manga) | Some(ContentType::Manhwa) | Some(ContentType::Manhua) | Some(
            ContentType::LightNovel,
        ) => true,
        _ => false,
    };
    if manga_type || starts_with(catalog_id, "manga-") {
        "MANGA"
    } else {
        "ANIME"
    }
}

/// A page size: 24 by default, within [1, 50].
pub open spec fn clamp_limit_spec(limit: Option<u32>) -> int {
    let v: int = match limit {
        Some(l) => l as int,
        None => 24,
    };
    if v < 1 {
        1
    } else if v > 50 {
        50
    } else {
        v
    }
}

/// A page size: 24 by default, within [1, 50].
pub fn clamp_limit(limit: Option<u32>) -> (r: u32)
    ensures
        r == clamp_limit_spec(limit),
        1 <= r <= 50,
{
    let v: u32 = match limit {
        Some(l) => l,
        None => 24,
    };
    if v < 1 {
        1
    } else if v > 50 {
        50
    } else {
        v
    }
}

/// The page that holds item number `skip` (0 by default) with `limit` items per page.
pub open spec fn skip_to_page_spec(skip: Option<u32>, limit: int) -> int {
    let s: int = match skip {
        Some(v) => v as int,
        None => 0,
    };
    s / limit + 1
}

/// The page that holds item number `skip` with `limit` items per page.
pub fn skip_to_page(skip: Option<u32>, limit: u32) -> (r: u32)
    requires
        limit > 0,
        skip_to_page_spec(skip, limit as int) <= u32::MAX,
    ensures
        r == skip_to_page_spec(skip, limit as int),
{
    let s: u32 = match skip {
        Some(v) => v,
        None => 0,
    };
    s / limit + 1
}

/// The content type that a record maps to is queried back under the record's own
/// AniList type: manga content types ask for `MANGA`, all others for `ANIME`.
pub proof fn lemma_content_type_round_trip(m: AniListMedia)
    ensures
        media_type_spec(Some(content_type_spec(m)), ""@) == (if is_manga_spec(m) {
            "MANGA"@
        } else {
            "ANIME"@
        }),
{
    reveal_strlit("manga-");
    reveal_strlit("");
    assert(!has_prefix(""@, "manga-"@));
}

// ---------------------------------------------------------------------------
// Queries
// ---------------------------------------------------------------------------

/// The variables of a catalog page query.
#[derive(Debug, Clone, PartialEq)]
pub struct PageVariables {
    pub page: u32,
    pub per_page: u32,
    pub media_type: &'static str,
    pub sort: CatalogSort,
}

/// The variables of a search query.
#[derive(Debug, Clone, PartialEq)]
pub struct SearchVariables {
    pub page: u32,
    pub per_page: u32,
    pub media_type: &'static str,
    pub search: String,
}

/// The variables of a single-title query.
#[derive(Debug, Clone, PartialEq)]
pub struct MediaVariables {
    pub id: i64,
    pub media_type: &'static str,
}

/// One AniList GraphQL query.
#[derive(Debug, Clone, PartialEq)]
pub enum AniListQuery {
    CatalogPage(PageVariables),
    Search(SearchVariables),
    Media(MediaVariables),
}

impl AniListQuery {
    /// The GraphQL document of the query.
    pub fn document(&self) -> (r: String)
        ensures
            r@ == match self {
                AniListQuery::CatalogPage(_) => CATALOG_QUERY_HEAD@ + MEDIA_FIELDS@ + PAGE_QUERY_TAIL@,
                AniListQuery::Search(_) => SEARCH_QUERY_HEAD@ + MEDIA_FIELDS@ + PAGE_QUERY_TAIL@,
                AniListQuery::Media(_) => MEDIA_QUERY_HEAD@ + MEDIA_FIELDS@ + MEDIA_QUERY_TAIL@,
            },
    {
        match self {
            AniListQuery::CatalogPage(_) => catalog_query(),
            AniListQuery::Search(_) => search_query(),
            AniListQuery::Media(_) => media_query(),
        }
    }
}

/// The query for one page of a catalog.
pub open spec fn catalog_page_spec(
    q: AniListQuery,
    catalog_id: Seq<char>,
    content_type: Option<ContentType>,
    skip: Option<u32>,
    limit: int,
) -> bool {
    match q {
        AniListQuery::CatalogPage(v) => {
            &&& v.page == skip_to_page_spec(skip, limit)
            &&& v.per_page == limit
            &&& v.media_type@ == media_type_spec(content_type, catalog_id)
            &&& sort_view(v.sort) == catalog_sort_spec(catalog_id)
        },
        _ => false,
    }
}

/// The query for one page of a catalog.
pub fn catalog_page(catalog_id: &str, content_type: Option<ContentType>, skip: Option<u32>, limit: u32) -> (r: AniListQuery)
    requires
        1 <= limit,
        skip_to_page_spec(skip, limit as int) <= u32::MAX,
    ensures
        catalog_page_spec(r, catalog_id@, content_type, skip, limit as int),
{
    AniListQuery::CatalogPage(
        PageVariables {
            page: skip_to_page(skip, limit),
            per_page: limit,
            media_type: media_type_of(content_type, catalog_id),
            sort: catalog_variables(catalog_id),
        },
    )
}

/// The query for a search: the popular catalog when the trimmed text is empty,
/// otherwise the first page of a search for the trimmed text.
pub open spec fn search_plan_spec(
    q: AniListQuery,
    query: Seq<char>,
    content_type: Option<ContentType>,
    limit: Option<u32>,
) -> bool {
    let l = clamp_limit_spec(limit);
    let text = trim(query);
    if text.len() == 0 {
        catalog_page_spec(q, "popular"@, content_type, None, l)
    } else {
        match q {
            AniListQuery::Search(v) => {
                &&& v.page == 1
                &&& v.per_page == l
                &&& v.media_type@ == media_type_spec(content_type, ""@)
                &&& v.search@ == text
            },
            _ => false,
        }
    }
}

/// The query that answers a search request.
pub fn search_plan(request: &SearchRequest) -> (r: AniListQuery)
    ensures
        search_plan_spec(r, request.query@, request.content_type, request.limit),
{
    let limit = clamp_limit(request.limit);
    let text = trim_str(request.query.as_str());
    if text.as_str().unicode_len() == 0 {
        return catalog_page("popular", request.content_type, None, limit);
    }
    AniListQuery::Search(
        SearchVariables {
            page: 1,
            per_page: limit,
            media_type: media_type_of(request.content_type, ""),
            search: text,
        },
    )
}

/// Whether a content type is one of the manga kinds: manga, manhwa, manhua or light novel.
pub open spec fn manga_kind(content_type: Option<ContentType>) -> bool {
    match content_type {
        Some(ContentType::Manga) | Some(ContentType::Manhwa) | Some(ContentType::Manhua) | Some(
            ContentType::LightNovel,
        ) => true,
        _ => false,
    }
}

/// A search with text asks AniList for the first page of titles matching the trimmed
/// text, `MANGA` titles exactly when the requested content type is a manga kind and
/// `ANIME` titles otherwise, with the clamped page size; a search without text lists the
/// popular catalog of the same media type.
pub proof fn lemma_search_media_type(
    q: AniListQuery,
    query: Seq<char>,
    content_type: Option<ContentType>,
    limit: Option<u32>,
)
    requires
        search_plan_spec(q, query, content_type, limit),
    ensures
        trim(query).len() > 0 ==> (q matches AniListQuery::Search(v) && v.page == 1 && v.per_page
            == clamp_limit_spec(limit) && v.search@ == trim(query) && v.media_type@ == (if manga_kind(
            content_type,
        ) {
            "MANGA"@
        } else {
            "ANIME"@
        })),
        trim(query).len() == 0 ==> (q matches AniListQuery::CatalogPage(v) && v.page == 1
            && v.per_page == clamp_limit_spec(limit) && v.media_type@ == (if manga_kind(
            content_type,
        ) {
            "MANGA"@
        } else {
            "ANIME"@
        })),
{
    reveal_strlit("");
    reveal_strlit("manga-");
    reveal_strlit("popular");
    let p = "popular"@;
    assert(!has_prefix(""@, "manga-"@));
    assert(p.take(6)[0] == 'p');
    assert(!has_prefix(p, "manga-"@));
}

/// The sort and status filter of every catalog: `TRENDING_DESC` exactly for the two
/// trending catalogs (`trending` and `manga-trending`), `SCORE_DESC` exactly for the
/// top-rated manga, and `POPULARITY_DESC` for every other id; only the airing catalog
/// filters, to `RELEASING` titles. Both trending catalogs sort alike, and differently from
/// the popular ones.
pub proof fn lemma_catalog_sorts(catalog_id: Seq<char>)
    ensures
        (catalog_sort_spec(catalog_id).0 == "TRENDING_DESC"@) <==> (catalog_id == "trending"@
            || catalog_id == "manga-trending"@),
        (catalog_sort_spec(catalog_id).0 == "SCORE_DESC"@) <==> catalog_id == "manga-rated"@,
        (catalog_sort_spec(catalog_id).0 == "POPULARITY_DESC"@) <==> !(catalog_id == "trending"@
            || catalog_id == "manga-trending"@ || catalog_id == "manga-rated"@),
        (catalog_sort_spec(catalog_id).1 == Some("RELEASING"@)) <==> catalog_id == "airing"@,
        catalog_sort_spec(catalog_id).1 is Some ==> catalog_id == "airing"@,
        catalog_sort_spec("trending"@) == catalog_sort_spec("manga-trending"@),
        catalog_sort_spec("trending"@) != catalog_sort_spec("popular"@),
        catalog_sort_spec("manga-trending"@) != catalog_sort_spec("manga-popular"@),
{
    reveal_strlit("TRENDING_DESC");
    reveal_strlit("SCORE_DESC");
    reveal_strlit("POPULARITY_DESC");
    reveal_strlit("trending");
    reveal_strlit("manga-trending");
    reveal_strlit("airing");
    reveal_strlit("manga-rated");
    reveal_strlit("popular");
    reveal_strlit("manga-popular");
    assert("TRENDING_DESC"@[0] != "SCORE_DESC"@[0]);
    assert("TRENDING_DESC"@[0] != "POPULARITY_DESC"@[0]);
    assert("SCORE_DESC"@[0] != "POPULARITY_DESC"@[0]);
    assert("trending"@[0] != "airing"@[0]);
    assert("trending"@[0] != "manga-rated"@[0]);
    assert("trending"@[0] != "popular"@[0]);
    assert("manga-trending"@.len() != "airing"@.len());
    assert("manga-trending"@[6] != "manga-rated"@[6]);
    assert("manga-trending"@[6] != "manga-popular"@[6]);
    assert("manga-rated"@.len() != "airing"@.len());
    assert("popular"@[0] != "airing"@[0]);
    assert("manga-popular"@.len() != "airing"@.len());
}

/// A catalog page asks for page `skip / limit + 1` of `limit` titles, `MANGA` titles
/// exactly when the content type is a manga kind or the catalog id starts with `manga-`,
/// sorted by trend exactly for the two trending catalogs, by score exactly for the
/// top-rated manga and by popularity otherwise, and restricted to releasing titles exactly
/// for the airing catalog.
pub proof fn lemma_catalog_page(
    q: AniListQuery,
    catalog_id: Seq<char>,
    content_type: Option<ContentType>,
    skip: Option<u32>,
    limit: int,
)
    requires
        catalog_page_spec(q, catalog_id, content_type, skip, limit),
    ensures
        q matches AniListQuery::CatalogPage(v) && {
            &&& v.page == (match skip {
                Some(k) => k as int,
                None => 0,
            }) / limit + 1
            &&& v.per_page == limit
            &&& v.media_type@ == (if manga_kind(content_type) || has_prefix(catalog_id, "manga-"@) {
                "MANGA"@
            } else {
                "ANIME"@
            })
            &&& (v.sort.sort@ == "TRENDING_DESC"@ <==> (catalog_id == "trending"@ || catalog_id
                == "manga-trending"@))
            &&& (v.sort.sort@ == "SCORE_DESC"@ <==> catalog_id == "manga-rated"@)
            &&& (v.sort.sort@ == "POPULARITY_DESC"@ <==> !(catalog_id == "trending"@ || catalog_id
                == "manga-trending"@ || catalog_id == "manga-rated"@))
            &&& (v.sort.status is Some <==> catalog_id == "airing"@)
            &&& (v.sort.status is Some ==> v.sort.status->0@ == "RELEASING"@)
        },
{
    lemma_catalog_sorts(catalog_id);
}

/// Whether a catalog request carries search text.
pub open spec fn has_query(request: CatalogRequest) -> bool {
    match request.query {
        Some(q) => q@.len() > 0,
        None => false,
    }
}

/// A catalog request whose page number fits in a `u32`.
pub open spec fn catalog_request_fits(request: CatalogRequest) -> bool {
    has_query(request) || skip_to_page_spec(request.skip, clamp_limit_spec(request.limit)) <= u32::MAX
}

/// The query for a catalog request: a search with the catalog's page size when it
/// carries search text, otherwise the requested page of the catalog.
pub open spec fn catalog_plan_spec(q: AniListQuery, request: CatalogRequest) -> bool {
    let l = clamp_limit_spec(request.limit);
    if has_query(request) {
        search_plan_spec(q, request.query->0@, request.content_type, Some(l as u32))
    } else {
        catalog_page_spec(q, request.catalog_id@, request.content_type, request.skip, l)
    }
}

/// A catalog request with search text is answered as the search for that text with the
/// request's content type and the catalog's page size, whatever its catalog and offset;
/// one without is answered by the requested page of its catalog.
pub proof fn lemma_catalog_plan(q: AniListQuery, request: CatalogRequest, other: CatalogRequest)
    requires
        catalog_plan_spec(q, request),
    ensures
        has_query(request) ==> search_plan_spec(
            q,
            request.query->0@,
            request.content_type,
            Some(clamp_limit_spec(request.limit) as u32),
        ),
        has_query(request) ==> clamp_limit_spec(Some(clamp_limit_spec(request.limit) as u32))
            == clamp_limit_spec(request.limit),
        has_query(request) && other == (CatalogRequest {
            catalog_id: other.catalog_id,
            skip: other.skip,
            addon_id: other.addon_id,
            ..request
        }) ==> catalog_plan_spec(q, other),
        !has_query(request) ==> catalog_page_spec(
            q,
            request.catalog_id@,
            request.content_type,
            request.skip,
            clamp_limit_spec(request.limit),
        ),
{
}

/// Whether the page number of a catalog request fits in a `u32`.
pub fn catalog_request_ok(request: &CatalogRequest) -> (r: bool)
    ensures
        r == catalog_request_fits(*request),
{
    if let Some(query) = &request.query {
        if query.as_str().unicode_len() > 0 {
            return true;
        }
    }
    let limit = clamp_limit(request.limit);
    let skip: u32 = match request.skip {
        Some(v) => v,
        None => 0,
    };
    skip / limit < u32::MAX
}

/// The query that answers a catalog request.
pub fn catalog_plan(request: &CatalogRequest) -> (r: AniListQuery)
    requires
        catalog_request_fits(*request),
    ensures
        catalog_plan_spec(r, *request),
{
    let limit = clamp_limit(request.limit);
    if let Some(query) = &request.query {
        if query.as_str().unicode_len() > 0 {
            let search = SearchRequest {
                addon_id: None,
                query: query.clone(),
                content_type: request.content_type,
                limit: Some(limit),
            };
            return search_plan(&search);
        }
    }
    catalog_page(request.catalog_id.as_str(), request.content_type, request.skip, limit)
}

// ---------------------------------------------------------------------------
// Ids
// ---------------------------------------------------------------------------

/// Whether every character is an ASCII digit.
pub open spec fn all_digits(ds: Seq<char>) -> bool {
    forall|i: int| 0 <= i < ds.len() ==> '0' <= #[trigger] ds[i] <= '9'
}

/// The value of a string of decimal digits.
pub open spec fn digits_value(ds: Seq<char>) -> int
    decreases ds.len(),
{
    if ds.len() == 0 {
        0
    } else {
        digits_value(ds.drop_last()) * 10 + (ds.last() as int - '0' as int)
    }
}

/// What `str::parse::<i64>` gives: an optional `+` or `-` and at least one digit, with
/// a value that fits in an `i64`.
pub open spec fn parse_i64_spec(s: Seq<char>) -> Option<int> {
    let neg = s.len() > 0 && s[0] == '-';
    let signed = s.len() > 0 && (s[0] == '-' || s[0] == '+');
    let body = if signed { s.drop_first() } else { s };
    if body.len() == 0 || !all_digits(body) {
        None
    } else {
        let v = if neg { -digits_value(body) } else { digits_value(body) };
        if i64::MIN <= v <= i64::MAX {
            Some(v)
        } else {
            None
        }
    }
}

/// A positive numeric id, as the text parses.
pub open spec fn positive_id_spec(s: Seq<char>) -> Option<int> {
    match parse_i64_spec(s) {
        Some(v) => if v > 0 { Some(v) } else { None },
        None => None,
    }
}

proof fn lemma_digits_nonneg(ds: Seq<char>)
    requires
        all_digits(ds),
    ensures
        digits_value(ds) >= 0,
    decreases ds.len(),
{
    if ds.len() > 0 {
        assert(all_digits(ds.drop_last())) by {
            assert forall|i: int| 0 <= i < ds.drop_last().len() implies '0' <= #[trigger] ds.drop_last()[i] <= '9' by {
                assert(ds.drop_last()[i] == ds[i]);
            }
        }
        lemma_digits_nonneg(ds.drop_last());
        assert('0' <= ds[ds.len() - 1] <= '9');
    }
}

proof fn lemma_digits_grow(ds: Seq<char>, k: int)
    requires
        all_digits(ds),
        0 <= k <= ds.len(),
    ensures
        digits_value(ds) >= digits_value(ds.take(k)),
    decreases ds.len() - k,
{
    if k < ds.len() {
        lemma_digits_grow(ds, k + 1);
        let t = ds.take(k + 1);
        assert(t.drop_last() =~= ds.take(k));
        assert(all_digits(ds.take(k))) by {
            assert forall|i: int| 0 <= i < ds.take(k).len() implies '0' <= #[trigger] ds.take(k)[i] <= '9' by {
                assert(ds.take(k)[i] == ds[i]);
            }
        }
        lemma_digits_nonneg(ds.take(k));
        assert('0' <= ds[k] <= '9');
        assert(t.last() == ds[k]);
    } else {
        assert(ds.take(k) =~= ds);
    }
}

/// The positive numeric id that the text names, when it names one.
pub fn positive_id(s: &str) -> (r: Option<i64>)
    ensures
        match r {
            Some(v) => positive_id_spec(s@) == Some(v as int),
            None => positive_id_spec(s@) is None,
        },
{
    let cs = chars_of(s);
    if cs.len() == 0 {
        return None;
    }
    if cs[0] == '-' {
        proof {
            let body = s@.drop_first();
            if body.len() > 0 && all_digits(body) {
                lemma_digits_nonneg(body);
            }
        }
        return None;
    }
    let start: usize = if cs[0] == '+' { 1 } else { 0 };
    let ghost body = if start == 1 { s@.drop_first() } else { s@ };
    proof {
        assert(body =~= s@.skip(start as int));
    }
    if start >= cs.len() {
        return None;
    }
    let mut value: u64 = 0;
    let mut i: usize = start;
    while i < cs.len()
        invariant
            start <= i <= cs@.len(),
            cs@ == s@,
            s@.len() > 0,
            s@[0] != '-',
            start == (if s@[0] == '+' { 1usize } else { 0usize }),
            body == (if s@[0] == '+' { s@.drop_first() } else { s@ }),
            body.len() > 0,
            body == s@.skip(start as int),
            all_digits(body.take(i - start)),
            value == digits_value(body.take(i - start)),
            value <= i64::MAX,
        decreases cs.len() - i,
    {
        let c = cs[i];
        let ghost k = i - start;
        proof {
            assert(body[k] == c);
            assert(body.take(k + 1).drop_last() =~= body.take(k));
            assert(body.take(k + 1).last() == c);
        }
        if !('0' <= c && c <= '9') {
            assert(!all_digits(body));
            return None;
        }
        let d = (c as u32 - '0' as u32) as u64;
        if value > (i64::MAX as u64 - d) / 10 {
            proof {
                assert(all_digits(body.take(k + 1))) by {
                    assert forall|j: int| 0 <= j < k + 1 implies '0' <= #[trigger] body.take(k + 1)[j] <= '9' by {
                        if j < k {
                            assert(body.take(k + 1)[j] == body.take(k)[j]);
                        }
                    }
                }
                assert(digits_value(body.take(k + 1)) > i64::MAX);
                if all_digits(body) {
                    lemma_digits_grow(body, k + 1);
                }
            }
            return None;
        }
        value = value * 10 + d;
        proof {
            assert forall|j: int| 0 <= j < k + 1 implies '0' <= #[trigger] body.take(k + 1)[j] <= '9' by {
                if j < k {
                    assert(body.take(k + 1)[j] == body.take(k)[j]);
                }
            }
        }
        i = i + 1;
    }
    proof {
        assert(body.take(cs@.len() - start) =~= body);
    }
    if value == 0 {
        return None;
    }
    Some(value as i64)
}

// ---------------------------------------------------------------------------
// Errors and replies
// ---------------------------------------------------------------------------

/// Why an AniList request failed.
#[derive(Debug, Clone, PartialEq)]
pub enum AniListError {
    /// The id is not a positive number.
    InvalidId { label: String, id: String },
    /// AniList has no title with the id.
    NotFound { label: String, id: String },
    /// AniList answered with an HTTP status outside 200–299.
    Status(u16),
    /// AniList reported GraphQL errors; their messages joined by `; `.
    GraphQl(String),
    /// The reply carried no data.
    MissingData,
    /// AniList could not be reached.
    Transport,
    /// The reply body could not be read.
    EmptyResponse,
}

/// The text of an error.
pub open spec fn error_message(e: AniListError) -> Seq<char> {
    match e {
        AniListError::InvalidId { label, id } => "Invalid AniList "@ + label@ + " id: "@ + id@,
        AniListError::NotFound { label, id } => "AniList "@ + label@ + " not found: "@ + id@,
        AniListError::Status(code) => "AniList returned "@ + decimal(code as nat),
        AniListError::GraphQl(m) => m@,
        AniListError::MissingData => "AniList response did not include data"@,
        AniListError::Transport => "failed to call AniList"@,
        AniListError::EmptyResponse => "AniList returned an empty response"@,
    }
}

impl AniListError {
    /// The text of the error.
    pub fn message(&self) -> (r: String)
        ensures
            r@ == error_message(*self),
    {
        match self {
            AniListError::InvalidId { label, id } => {
                let mut r = concat("Invalid AniList ", label.as_str());
                r.append(" id: ");
                r.append(id.as_str());
                r
            },
            AniListError::NotFound { label, id } => {
                let mut r = concat("AniList ", label.as_str());
                r.append(" not found: ");
                r.append(id.as_str());
                r
            },
            AniListError::Status(code) => {
                let mut r = String::from_str("AniList returned ");
                push_decimal(&mut r, *code as u64);
                r
            },
            AniListError::GraphQl(m) => m.clone(),
            AniListError::MissingData => String::from_str("AniList response did not include data"),
            AniListError::Transport => String::from_str("failed to call AniList"),
            AniListError::EmptyResponse => String::from_str("AniList returned an empty response"),
        }
    }
}

/// The query for one title of the given media type, or an invalid-id error when the
/// id is not a positive number.
pub open spec fn media_plan_spec(
    r: Result<AniListQuery, AniListError>,
    id: Seq<char>,
    media_type: Seq<char>,
    label: Seq<char>,
) -> bool {
    match positive_id_spec(id) {
        Some(v) => match r {
            Ok(AniListQuery::Media(m)) => m.id == v && m.media_type@ == media_type,
            _ => false,
        },
        None => match r {
            Err(AniListError::InvalidId { label: l, id: i }) => l@ == label && i@ == id,
            _ => false,
        },
    }
}

/// The query for one title.
pub fn media_plan(id: &str, media_type: &'static str, label: &str) -> (r: Result<AniListQuery, AniListError>)
    ensures
        media_plan_spec(r, id@, media_type@, label@),
{
    match positive_id(id) {
        Some(numeric_id) => Ok(AniListQuery::Media(MediaVariables { id: numeric_id, media_type })),
        None => Err(
            AniListError::InvalidId {
                label: to_owned_string(label),
                id: to_owned_string(id),
            },
        ),
    }
}

/// The query for one anime.
pub fn anime_plan(id: &str) -> (r: Result<AniListQuery, AniListError>)
    ensures
        media_plan_spec(r, id@, "ANIME"@, "anime"@),
{
    media_plan(id, "ANIME", "anime")
}

/// The query for one manga.
pub fn manga_plan(id: &str) -> (r: Result<AniListQuery, AniListError>)
    ensures
        media_plan_spec(r, id@, "MANGA"@, "manga"@),
{
    media_plan(id, "MANGA", "manga")
}

/// The messages that are present, in order.
pub open spec fn present_messages(es: Seq<Option<Seq<char>>>) -> Seq<Seq<char>>
    decreases es.len(),
{
    if es.len() == 0 {
        seq![]
    } else {
        match es.last() {
            Some(m) => present_messages(es.drop_last()).push(m),
            None => present_messages(es.drop_last()),
        }
    }
}

/// The parts joined by `sep`.
pub open spec fn join_with(parts: Seq<Seq<char>>, sep: Seq<char>) -> Seq<char>
    decreases parts.len(),
{
    if parts.len() == 0 {
        seq![]
    } else if parts.len() == 1 {
        parts[0]
    } else {
        join_with(parts.drop_last(), sep) + sep + parts.last()
    }
}

/// How a GraphQL reply is judged: a status outside 200–299 fails with that status; a
/// non-empty error list fails with the present messages joined by `; `; otherwise the
/// data, when there is some, is the answer.
pub open spec fn reply_spec<T>(
    r: Result<T, AniListError>,
    status: u16,
    errors: Option<Seq<Option<Seq<char>>>>,
    data: Option<T>,
) -> bool {
    if !(200 <= status <= 299) {
        r == Err::<T, AniListError>(AniListError::Status(status))
    } else if errors is Some && errors->0.len() > 0 {
        match r {
            Err(AniListError::GraphQl(m)) => m@ == join_with(present_messages(errors->0), "; "@),
            _ => false,
        }
    } else {
        match data {
            Some(d) => r == Ok::<T, AniListError>(d),
            None => r == Err::<T, AniListError>(AniListError::MissingData),
        }
    }
}

/// The views of optional error messages.
pub open spec fn messages_view(v: Option<Vec<Option<String>>>) -> Option<Seq<Option<Seq<char>>>> {
    match v {
        Some(es) => Some(es@.map_values(|o: Option<String>| opt_view(o))),
        None => None,
    }
}

/// Judges a GraphQL reply.
pub fn check_reply<T>(status: u16, errors: Option<Vec<Option<String>>>, data: Option<T>) -> (r: Result<T, AniListError>)
    ensures
        reply_spec(r, status, messages_view(errors), data),
{
    if !(200 <= status && status <= 299) {
        return Err(AniListError::Status(status));
    }
    if let Some(es) = &errors {
        if es.len() > 0 {
            let ghost ev = es@.map_values(|o: Option<String>| opt_view(o));
            let mut joined = String::new();
            let mut any = false;
            for i in 0..es.len()
                invariant
                    ev == es@.map_values(|o: Option<String>| opt_view(o)),
                    joined@ == join_with(present_messages(ev.take(i as int)), "; "@),
                    any == (present_messages(ev.take(i as int)).len() > 0),
            {
                proof {
                    assert(ev.take(i + 1).drop_last() =~= ev.take(i as int));
                    assert(ev.take(i + 1).last() == opt_view(es@[i as int]));
                }
                if let Some(m) = &es[i] {
                    if any {
                        joined.append("; ");
                    }
                    joined.append(m.as_str());
                    proof {
                        let p = present_messages(ev.take(i as int));
                        assert(present_messages(ev.take(i + 1)) == p.push(m@));
                        if p.len() == 0 {
                            assert(joined@ =~= m@);
                        } else {
                            assert(p.push(m@).drop_last() =~= p);
                        }
                    }
                    any = true;
                }
            }
            assert(ev.take(es@.len() as int) =~= ev);
            return Err(AniListError::GraphQl(joined));
        }
    }
    match data {
        Some(d) => Ok(d),
        None => Err(AniListError::MissingData),
    }
}

/// The metadata of the fetched title, or a not-found error when there is none.
pub open spec fn media_reply_spec(
    r: Result<AnimeMetadata, AniListError>,
    media: Option<AniListMedia>,
    id: Seq<char>,
    label: Seq<char>,
) -> bool {
    match media {
        Some(m) => match r {
            Ok(meta) => metadata_spec(meta, m),
            Err(_) => false,
        },
        None => match r {
            Err(AniListError::NotFound { label: l, id: i }) => l@ == label && i@ == id,
            _ => false,
        },
    }
}

/// The metadata of the fetched title.
pub fn media_reply(media: Option<AniListMedia>, id: &str, label: &str) -> (r: Result<AnimeMetadata, AniListError>)
    ensures
        media_reply_spec(r, media, id@, label@),
{
    match media {
        Some(m) => Ok(to_metadata(&m)),
        None => Err(
            AniListError::NotFound {
                label: to_owned_string(label),
                id: to_owned_string(id),
            },
        ),
    }
}

/// A page of previews, one per fetched title, in order.
pub fn page_reply(media: &Vec<AniListMedia>) -> (r: CatalogResponse)
    ensures
        r.items@.len() == media@.len(),
        forall|i: int| 0 <= i < media@.len() ==> preview_spec(#[trigger] r.items@[i], media@[i]),
{
    let mut items: Vec<AnimePreview> = Vec::new();
    for i in 0..media.len()
        invariant
            items@.len() == i,
            forall|k: int| 0 <= k < i ==> preview_spec(#[trigger] items@[k], media@[k]),
    {
        items.push(to_preview(&media[i]));
    }
    CatalogResponse { items }
}

} // verus!
