//! AniList media records and their mapping onto the Typenx protocol.
use vstd::prelude::*;
use crate::sorting::{first_smaller, lemma_insert_desc_at, sort_desc};
use crate::text::{
    clone_opt, clone_strings, concat, contains, contains_seq, contains_string, decimal,
    decimal_string, lowercase, opt_str_eq, opt_view, padded_decimal, push_char, push_decimal,
    push_padded, replace, replace_all, signed_decimal, str_eq, to_lowercase, trim, trim_str, views,
};
use crate::time::{instant_rfc3339, is_rfc3339_instant, now_rfc3339, rfc3339_of_timestamp, timestamp_rfc3339};
use crate::types::{
    AnimeMetadata, AnimePreview, ContentType, EpisodeMetadata, ExternalLink, StaffCredit,
};

verus! {

broadcast use vstd::string::group_string_axioms;

// ---------------------------------------------------------------------------
// AniList records (as the GraphQL API returns them)
// ---------------------------------------------------------------------------

/// A title record. Scores are AniList's percentages (0–100).
#[derive(Debug, Clone, Default)]
pub struct AniListMedia {
    pub id: i64,
    pub id_mal: Option<i64>,
    pub media_type: Option<String>,
    pub title: Option<AniListTitle>,
    pub synonyms: Option<Vec<String>>,
    pub description: Option<String>,
    pub format: Option<String>,
    pub status: Option<String>,
    pub season: Option<String>,
    pub season_year: Option<i32>,
    pub episodes: Option<u32>,
    pub chapters: Option<u32>,
    pub volumes: Option<u32>,
    pub duration: Option<u32>,
    pub source: Option<String>,
    pub country_of_origin: Option<String>,
    pub start_date: Option<AniListFuzzyDate>,
    pub end_date: Option<AniListFuzzyDate>,
    pub genres: Option<Vec<String>>,
    pub tags: Option<Vec<AniListTag>>,
    pub average_score: Option<u32>,
    pub mean_score: Option<u32>,
    pub popularity: Option<u32>,
    pub rankings: Option<Vec<AniListRanking>>,
    pub updated_at: Option<i64>,
    pub site_url: Option<String>,
    pub trailer: Option<AniListTrailer>,
    pub external_links: Option<Vec<AniListExternalLink>>,
    pub cover_image: Option<AniListCoverImage>,
    pub banner_image: Option<String>,
    pub studios: Option<AniListStudios>,
    pub staff: Option<AniListStaff>,
    pub streaming_episodes: Option<Vec<AniListStreamingEpisode>>,
    pub airing_schedule: Option<AniListAiringSchedule>,
}

#[derive(Debug, Clone, Default)]
pub struct AniListTitle {
    pub romaji: Option<String>,
    pub english: Option<String>,
    pub native: Option<String>,
}

#[derive(Debug, Clone, Default)]
pub struct AniListCoverImage {
    pub extra_large: Option<String>,
    pub large: Option<String>,
    pub medium: Option<String>,
}

#[derive(Debug, Clone, Default)]
pub struct AniListFuzzyDate {
    pub year: Option<i32>,
    pub month: Option<u32>,
    pub day: Option<u32>,
}

#[derive(Debug, Clone, Default)]
pub struct AniListTag {
    pub name: Option<String>,
    pub rank: Option<i32>,
    pub is_media_spoiler: Option<bool>,
}

#[derive(Debug, Clone, Default)]
pub struct AniListRanking {
    pub rank: Option<u32>,
    pub ranking_type: Option<String>,
    pub all_time: Option<bool>,
    pub context: Option<String>,
}

#[derive(Debug, Clone, Default)]
pub struct AniListStudio {
    pub name: Option<String>,
    pub is_animation_studio: Option<bool>,
}

#[derive(Debug, Clone, Default)]
pub struct AniListStudios {
    pub nodes: Option<Vec<AniListStudio>>,
}

#[derive(Debug, Clone, Default)]
pub struct AniListStaff {
    pub edges: Option<Vec<AniListStaffEdge>>,
}

#[derive(Debug, Clone, Default)]
pub struct AniListStaffEdge {
    pub role: Option<String>,
    pub node: Option<AniListStaffNode>,
}

#[derive(Debug, Clone, Default)]
pub struct AniListStaffNode {
    pub name: Option<AniListStaffName>,
}

#[derive(Debug, Clone, Default)]
pub struct AniListStaffName {
    pub full: Option<String>,
}

#[derive(Debug, Clone, Default)]
pub struct AniListStreamingEpisode {
    pub title: Option<String>,
    pub thumbnail: Option<String>,
    pub site: Option<String>,
}

#[derive(Debug, Clone, Default)]
pub struct AniListAiringSchedule {
    pub nodes: Option<Vec<AniListAiringEpisode>>,
}

#[derive(Debug, Clone, Default)]
pub struct AniListAiringEpisode {
    pub episode: Option<u32>,
    pub airing_at: Option<i64>,
}

#[derive(Debug, Clone, Default)]
pub struct AniListTrailer {
    pub id: Option<String>,
    pub site: Option<String>,
}

#[derive(Debug, Clone, Default)]
pub struct AniListExternalLink {
    pub site: Option<String>,
    pub url: Option<String>,
}

// ---------------------------------------------------------------------------
// Single fields
// ---------------------------------------------------------------------------

/// The first present value of three.
pub open spec fn first_of3(
    a: Option<Seq<char>>,
    b: Option<Seq<char>>,
    c: Option<Seq<char>>,
) -> Option<Seq<char>> {
    if a is Some {
        a
    } else if b is Some {
        b
    } else {
        c
    }
}

/// The displayed title: English, else romaji, else native, else the id.
pub open spec fn title_spec(m: AniListMedia) -> Seq<char> {
    match m.title {
        Some(t) => match first_of3(opt_view(t.english), opt_view(t.romaji), opt_view(t.native)) {
            Some(s) => s,
            None => signed_decimal(m.id as int),
        },
        None => signed_decimal(m.id as int),
    }
}

/// The first present string of three.
fn first_present3(a: &Option<String>, b: &Option<String>, c: &Option<String>) -> (r: Option<String>)
    ensures
        opt_view(r) == first_of3(opt_view(*a), opt_view(*b), opt_view(*c)),
{
    if a.is_some() {
        clone_opt(a)
    } else if b.is_some() {
        clone_opt(b)
    } else {
        clone_opt(c)
    }
}

/// The displayed title of a record.
pub fn title_of(m: &AniListMedia) -> (r: String)
    ensures
        r@ == title_spec(*m),
{
    match &m.title {
        Some(t) => match first_present3(&t.english, &t.romaji, &t.native) {
            Some(s) => s,
            None => decimal_string(m.id),
        },
        None => decimal_string(m.id),
    }
}

/// The cover image: extra large, else large, else medium.
pub open spec fn image_spec(m: AniListMedia) -> Option<Seq<char>> {
    match m.cover_image {
        Some(c) => first_of3(opt_view(c.extra_large), opt_view(c.large), opt_view(c.medium)),
        None => None,
    }
}

/// The cover image of a record.
pub fn image_of(m: &AniListMedia) -> (r: Option<String>)
    ensures
        opt_view(r) == image_spec(*m),
{
    match &m.cover_image {
        Some(c) => first_present3(&c.extra_large, &c.large, &c.medium),
        None => None,
    }
}

/// The description with line-break tags turned into newlines, italic tags removed,
/// and surrounding white space trimmed; `None` when nothing is left.
pub open spec fn clean_description_spec(d: Option<Seq<char>>) -> Option<Seq<char>> {
    match d {
        Some(s) => {
            let a = replace_all(s, "<br>"@, "\n"@);
            let b = replace_all(a, "<br/>"@, "\n"@);
            let c = replace_all(b, "<br />"@, "\n"@);
            let e = replace_all(c, "<i>"@, ""@);
            let f = replace_all(e, "</i>"@, ""@);
            let v = trim(f);
            if v.len() == 0 {
                None
            } else {
                Some(v)
            }
        },
        None => None,
    }
}

/// Cleans an AniList description for display.
pub fn clean_description(description: &Option<String>) -> (r: Option<String>)
    ensures
        opt_view(r) == clean_description_spec(opt_view(*description)),
{
    match description {
        Some(s) => {
            proof {
                reveal_strlit("<br>");
                reveal_strlit("<br/>");
                reveal_strlit("<br />");
                reveal_strlit("<i>");
                reveal_strlit("</i>");
            }
            let a = replace(s.as_str(), "<br>", "\n");
            let b = replace(a.as_str(), "<br/>", "\n");
            let c = replace(b.as_str(), "<br />", "\n");
            let e = replace(c.as_str(), "<i>", "");
            let f = replace(e.as_str(), "</i>", "");
            let v = trim_str(f.as_str());
            if v.as_str().unicode_len() == 0 {
                None
            } else {
                Some(v)
            }
        },
        None => None,
    }
}

/// Whether the record is a manga (AniList type `MANGA`).
pub open spec fn is_manga_spec(m: AniListMedia) -> bool {
    opt_view(m.media_type) == Some("MANGA"@)
}

/// Whether the record is a manga.
pub fn is_manga_media(m: &AniListMedia) -> (r: bool)
    ensures
        r == is_manga_spec(*m),
{
    opt_str_eq(&m.media_type, "MANGA")
}

/// The content type: for manga, a light novel when the format is `NOVEL`; otherwise
/// the format picks movie, OVA, ONA or special, and anything else is anime.
pub open spec fn content_type_spec(m: AniListMedia) -> ContentType {
    let f = opt_view(m.format);
    if is_manga_spec(m) {
        if f == Some("NOVEL"@) {
            ContentType::LightNovel
        } else {
            ContentType::Manga
        }
    } else if f == Some("MOVIE"@) {
        ContentType::Movie
    } else if f == Some("OVA"@) {
        ContentType::Ova
    } else if f == Some("ONA"@) {
        ContentType::Ona
    } else if f == Some("SPECIAL"@) {
        ContentType::Special
    } else {
        ContentType::Anime
    }
}

/// The content type of a record.
pub fn content_type_of(m: &AniListMedia) -> (r: ContentType)
    ensures
        r == content_type_spec(*m),
{
    if is_manga_media(m) {
        return if opt_str_eq(&m.format, "NOVEL") {
            ContentType::LightNovel
        } else {
            ContentType::Manga
        };
    }
    if opt_str_eq(&m.format, "MOVIE") {
        ContentType::Movie
    } else if opt_str_eq(&m.format, "OVA") {
        ContentType::Ova
    } else if opt_str_eq(&m.format, "ONA") {
        ContentType::Ona
    } else if opt_str_eq(&m.format, "SPECIAL") {
        ContentType::Special
    } else {
        ContentType::Anime
    }
}

/// The score in tenths of a point: the average score, else the mean score
/// (an AniList percentage divided by ten is a score, so the tenths are the percentage).
pub open spec fn score_spec(m: AniListMedia) -> Option<u32> {
    if m.average_score is Some {
        m.average_score
    } else {
        m.mean_score
    }
}

/// The score of a record, in tenths of a point.
pub fn score_of(m: &AniListMedia) -> (r: Option<u32>)
    ensures
        r == score_spec(*m),
{
    if m.average_score.is_some() {
        m.average_score
    } else {
        m.mean_score
    }
}

/// A count, kept only when it is positive.
pub open spec fn positive_spec(v: Option<u32>) -> Option<u32> {
    match v {
        Some(n) => if n > 0 { Some(n) } else { None },
        None => None,
    }
}

/// A count, kept only when it is positive.
pub fn positive_number(v: Option<u32>) -> (r: Option<u32>)
    ensures
        r == positive_spec(v),
{
    match v {
        Some(n) => if n > 0 { Some(n) } else { None },
        None => None,
    }
}

/// The start year of a date, when there is one.
pub open spec fn date_year(d: Option<AniListFuzzyDate>) -> Option<i32> {
    match d {
        Some(d) => d.year,
        None => None,
    }
}

/// The year: the season year, else the start year.
pub open spec fn year_spec(m: AniListMedia) -> Option<i32> {
    if m.season_year is Some {
        m.season_year
    } else {
        date_year(m.start_date)
    }
}

/// The start year of a date.
fn start_year(d: &Option<AniListFuzzyDate>) -> (r: Option<i32>)
    ensures
        r == date_year(*d),
{
    match d {
        Some(d) => d.year,
        None => None,
    }
}

/// The year of a record.
pub fn year_of(m: &AniListMedia) -> (r: Option<i32>)
    ensures
        r == year_spec(*m),
{
    if m.season_year.is_some() {
        m.season_year
    } else {
        start_year(&m.start_date)
    }
}

// ---------------------------------------------------------------------------
// Rank
// ---------------------------------------------------------------------------

/// Whether a ranking is of type `RATED`.
pub open spec fn is_rated(r: AniListRanking) -> bool {
    opt_view(r.ranking_type) == Some("RATED"@)
}

/// Whether a ranking is of type `RATED` over all time.
pub open spec fn is_rated_all_time(r: AniListRanking) -> bool {
    is_rated(r) && r.all_time == Some(true)
}

/// The rank of the first ranking that satisfies `all_time` (all-time `RATED`) or else
/// `RATED`; `None` when there is no such ranking or it has no rank.
pub open spec fn first_rank(rs: Seq<AniListRanking>, all_time: bool) -> Option<u32>
    decreases rs.len(),
{
    if rs.len() == 0 {
        None
    } else if (if all_time { is_rated_all_time(rs[0]) } else { is_rated(rs[0]) }) {
        rs[0].rank
    } else {
        first_rank(rs.drop_first(), all_time)
    }
}

/// The rank: that of the first all-time `RATED` ranking, else that of the first `RATED` one.
pub open spec fn rank_spec(m: AniListMedia) -> Option<u32> {
    match m.rankings {
        Some(rs) => if first_rank(rs@, true) is Some {
            first_rank(rs@, true)
        } else {
            first_rank(rs@, false)
        },
        None => None,
    }
}

fn find_rank(rs: &Vec<AniListRanking>, all_time: bool) -> (r: Option<u32>)
    ensures
        r == first_rank(rs@, all_time),
{
    let mut i: usize = 0;
    assert(rs@.skip(0) =~= rs@);
    while i < rs.len()
        invariant
            i <= rs@.len(),
            first_rank(rs@.skip(i as int), all_time) == first_rank(rs@, all_time),
        decreases rs.len() - i,
    {
        let rated = opt_str_eq(&rs[i].ranking_type, "RATED");
        let hit = if all_time {
            rated && rs[i].all_time == Some(true)
        } else {
            rated
        };
        proof {
            let t = rs@.skip(i as int);
            assert(t[0] == rs@[i as int]);
            assert(t.drop_first() =~= rs@.skip(i + 1));
        }
        if hit {
            return rs[i].rank;
        }
        i = i + 1;
    }
    None
}

/// The rank of a record.
pub fn rank_of(m: &AniListMedia) -> (r: Option<u32>)
    ensures
        r == rank_spec(*m),
{
    match &m.rankings {
        Some(rs) => {
            let first = find_rank(rs, true);
            if first.is_some() {
                first
            } else {
                find_rank(rs, false)
            }
        },
        None => None,
    }
}

// ---------------------------------------------------------------------------
// Dates and links
// ---------------------------------------------------------------------------

/// `YYYY-MM-DD` with month and day defaulting to 1; `None` without a year.
pub open spec fn fuzzy_date_spec(d: Option<AniListFuzzyDate>) -> Option<Seq<char>> {
    match d {
        Some(d) => match d.year {
            Some(y) => {
                let month: int = match d.month {
                    Some(v) => v as int,
                    None => 1,
                };
                let day: int = match d.day {
                    Some(v) => v as int,
                    None => 1,
                };
                Some(
                    padded_decimal(y as int, 4) + seq!['-'] + padded_decimal(month, 2) + seq!['-']
                        + padded_decimal(day, 2),
                )
            },
            None => None,
        },
        None => None,
    }
}

/// Renders a fuzzy date as `YYYY-MM-DD`.
pub fn fuzzy_date(d: &Option<AniListFuzzyDate>) -> (r: Option<String>)
    ensures
        opt_view(r) == fuzzy_date_spec(*d),
{
    match d {
        Some(d) => match d.year {
            Some(y) => {
                let month: u32 = match d.month {
                    Some(v) => v,
                    None => 1,
                };
                let day: u32 = match d.day {
                    Some(v) => v,
                    None => 1,
                };
                let mut s = String::new();
                push_padded(&mut s, y as i64, 4);
                push_char(&mut s, '-');
                push_padded(&mut s, month as i64, 2);
                push_char(&mut s, '-');
                push_padded(&mut s, day as i64, 2);
                assert(s@ =~= padded_decimal(y as int, 4) + seq!['-'] + padded_decimal(
                    month as int,
                    2,
                ) + seq!['-'] + padded_decimal(day as int, 2));
                Some(s)
            },
            None => None,
        },
        None => None,
    }
}

/// A watch link for a YouTube or Dailymotion trailer.
pub open spec fn trailer_url_spec(t: Option<AniListTrailer>) -> Option<Seq<char>> {
    match t {
        Some(t) => match (opt_view(t.site), opt_view(t.id)) {
            (Some(site), Some(id)) => if site == "youtube"@ {
                Some("https://www.youtube.com/watch?v="@ + id)
            } else if site == "dailymotion"@ {
                Some("https://www.dailymotion.com/video/"@ + id)
            } else {
                None
            },
            _ => None,
        },
        None => None,
    }
}

/// The watch link of a trailer.
pub fn trailer_url(t: &Option<AniListTrailer>) -> (r: Option<String>)
    ensures
        opt_view(r) == trailer_url_spec(*t),
{
    match t {
        Some(t) => match (&t.site, &t.id) {
            (Some(site), Some(id)) => if str_eq(site.as_str(), "youtube") {
                Some(concat("https://www.youtube.com/watch?v=", id.as_str()))
            } else if str_eq(site.as_str(), "dailymotion") {
                Some(concat("https://www.dailymotion.com/video/", id.as_str()))
            } else {
                None
            },
            _ => None,
        },
        None => None,
    }
}

// ---------------------------------------------------------------------------
// Unique strings
// ---------------------------------------------------------------------------

/// The present values, trimmed, without empty ones and without repeats; the first
/// occurrence of each stays, in order.
pub open spec fn unique_trimmed(values: Seq<Option<Seq<char>>>) -> Seq<Seq<char>>
    decreases values.len(),
{
    if values.len() == 0 {
        seq![]
    } else {
        let prev = unique_trimmed(values.drop_last());
        match values.last() {
            Some(v) => {
                let t = trim(v);
                if t.len() > 0 && !prev.contains(t) {
                    prev.push(t)
                } else {
                    prev
                }
            },
            None => prev,
        }
    }
}

/// The views of a list of optional strings.
pub open spec fn opt_views(v: Seq<Option<String>>) -> Seq<Option<Seq<char>>> {
    v.map_values(|o: Option<String>| opt_view(o))
}

/// The present values, trimmed, without empty ones and without repeats.
pub fn unique_strings(values: Vec<Option<String>>) -> (r: Vec<String>)
    ensures
        views(r@) == unique_trimmed(opt_views(values@)),
{
    let mut out: Vec<String> = Vec::new();
    let mut i: usize = 0;
    while i < values.len()
        invariant
            i <= values@.len(),
            views(out@) == unique_trimmed(opt_views(values@).take(i as int)),
        decreases values.len() - i,
    {
        proof {
            let ov = opt_views(values@);
            assert(ov.take(i + 1).drop_last() =~= ov.take(i as int));
            assert(ov.take(i + 1).last() == opt_view(values@[i as int]));
        }
        match &values[i] {
            Some(v) => {
                let t = trim_str(v.as_str());
                if t.as_str().unicode_len() > 0 && !contains_string(&out, &t) {
                    out.push(t);
                    assert(views(out@) =~= views(out@).drop_last().push(t@));
                    assert(views(out@).drop_last() =~= unique_trimmed(
                        opt_views(values@).take(i as int),
                    ));
                }
            },
            None => {},
        }
        i = i + 1;
    }
    assert(opt_views(values@).take(values@.len() as int) =~= opt_views(values@));
    out
}

/// Every kept string is non-empty, comes trimmed from a present input, and appears once;
/// there are no more of them than inputs.
pub proof fn lemma_unique_trimmed(values: Seq<Option<Seq<char>>>)
    ensures
        unique_trimmed(values).len() <= values.len(),
        forall|i: int, j: int|
            0 <= i < j < unique_trimmed(values).len() ==> #[trigger] unique_trimmed(values)[i]
                != #[trigger] unique_trimmed(values)[j],
        forall|i: int|
            0 <= i < unique_trimmed(values).len() ==> (#[trigger] unique_trimmed(values)[i]).len()
                > 0,
        forall|i: int|
            #![trigger unique_trimmed(values)[i]]
            0 <= i < unique_trimmed(values).len() ==> exists|k: int|
                0 <= k < values.len() && (#[trigger] values[k]) is Some && trim(values[k]->0)
                    == unique_trimmed(values)[i],
    decreases values.len(),
{
    if values.len() > 0 {
        let init = values.drop_last();
        lemma_unique_trimmed(init);
        let prev = unique_trimmed(init);
        let out = unique_trimmed(values);
        assert forall|i: int| #![trigger out[i]] 0 <= i < out.len() implies exists|k: int|
            0 <= k < values.len() && (#[trigger] values[k]) is Some && trim(values[k]->0)
                == out[i] by {
            if i < prev.len() {
                assert(out[i] == prev[i]);
                let k = choose|k: int|
                    0 <= k < init.len() && (#[trigger] init[k]) is Some && trim(init[k]->0)
                        == prev[i];
                assert(values[k] == init[k]);
            } else {
                assert(values[values.len() - 1] == values.last());
            }
        }
        assert forall|i: int, j: int| 0 <= i < j < out.len() implies #[trigger] out[i]
            != #[trigger] out[j] by {
            if j >= prev.len() {
                assert(out[i] == prev[i]);
                assert(prev.contains(prev[i]));
            } else {
                assert(out[i] == prev[i] && out[j] == prev[j]);
            }
        }
    }
}

/// The tags shown for a title are at most twelve, non-empty, and distinct.
pub proof fn lemma_tags_bounded(m: AniListMedia)
    ensures
        tags_spec(m).len() <= 12,
        forall|i: int, j: int|
            0 <= i < j < tags_spec(m).len() ==> #[trigger] tags_spec(m)[i] != #[trigger] tags_spec(
                m,
            )[j],
        forall|i: int| 0 <= i < tags_spec(m).len() ==> (#[trigger] tags_spec(m)[i]).len() > 0,
{
    let sorted = sort_desc(non_spoilers(seq_or_empty(m.tags)), tag_rank());
    lemma_unique_trimmed(tag_names(first_n(sorted, 12)));
}

/// A title's preview and its full metadata agree on every field they share.
pub proof fn lemma_preview_agrees_with_metadata(p: AnimePreview, r: AnimeMetadata, m: AniListMedia)
    requires
        preview_spec(p, m),
        metadata_spec(r, m),
    ensures
        p.id@ == r.id@,
        p.title@ == r.title@,
        opt_view(p.poster) == opt_view(r.poster),
        opt_view(p.synopsis) == opt_view(r.synopsis),
        p.score == r.score,
        p.year == r.year,
        p.content_type == r.content_type,
        views(p.genres@) == views(r.genres@),
{
}

/// A manga's metadata lists no episodes, no season and no duration.
pub proof fn lemma_manga_has_no_episodes(r: AnimeMetadata, m: AniListMedia)
    requires
        metadata_spec(r, m),
        is_manga_spec(m),
    ensures
        r.episodes@.len() == 0,
        r.season is None,
        r.duration_minutes is None,
        r.content_type == ContentType::Manga || r.content_type == ContentType::LightNovel,
{
}

// ---------------------------------------------------------------------------
// Lists
// ---------------------------------------------------------------------------

/// The elements of an optional list, or none.
pub open spec fn seq_or_empty<T>(o: Option<Vec<T>>) -> Seq<T> {
    match o {
        Some(v) => v@,
        None => Seq::empty(),
    }
}

/// The first `n` elements of `s`, or all of them when there are fewer.
pub open spec fn first_n<T>(s: Seq<T>, n: int) -> Seq<T> {
    if s.len() <= n {
        s
    } else {
        s.take(n)
    }
}

/// A copy of a tag.
fn clone_tag(t: &AniListTag) -> (r: AniListTag)
    ensures
        r == *t,
{
    AniListTag {
        name: match &t.name {
            Some(n) => Some(n.clone()),
            None => None,
        },
        rank: t.rank,
        is_media_spoiler: t.is_media_spoiler,
    }
}

/// The rank by which tags are ordered; a missing rank counts as zero.
pub open spec fn tag_key(t: AniListTag) -> int {
    match t.rank {
        Some(r) => r as int,
        None => 0,
    }
}

/// The tag ordering key as a function.
pub open spec fn tag_rank() -> spec_fn(AniListTag) -> int {
    |t: AniListTag| tag_key(t)
}

/// The tags that are not marked as spoilers, in order.
pub open spec fn non_spoilers(ts: Seq<AniListTag>) -> Seq<AniListTag>
    decreases ts.len(),
{
    if ts.len() == 0 {
        seq![]
    } else if ts.last().is_media_spoiler == Some(true) {
        non_spoilers(ts.drop_last())
    } else {
        non_spoilers(ts.drop_last()).push(ts.last())
    }
}

/// The names of tags.
pub open spec fn tag_names(ts: Seq<AniListTag>) -> Seq<Option<Seq<char>>> {
    ts.map_values(|t: AniListTag| opt_view(t.name))
}

/// The tags shown for a title: spoilers dropped, ordered by descending rank (ties keep
/// their order), the first twelve, their names trimmed and without repeats.
pub open spec fn tags_spec(m: AniListMedia) -> Seq<Seq<char>> {
    unique_trimmed(
        tag_names(first_n(sort_desc(non_spoilers(seq_or_empty(m.tags)), tag_rank()), 12)),
    )
}

fn rank_or_zero(t: &AniListTag) -> (r: i32)
    ensures
        r == tag_key(*t),
{
    match t.rank {
        Some(r) => r,
        None => 0,
    }
}

/// The tags shown for a record.
pub fn tags_of(m: &AniListMedia) -> (r: Vec<String>)
    ensures
        views(r@) == tags_spec(*m),
{
    let empty: Vec<AniListTag> = Vec::new();
    let all: &Vec<AniListTag> = match &m.tags {
        Some(v) => v,
        None => &empty,
    };
    assert(all@ == seq_or_empty(m.tags));
    // Drop spoilers.
    let mut kept: Vec<AniListTag> = Vec::new();
    for i in 0..all.len()
        invariant
            kept@ == non_spoilers(all@.take(i as int)),
    {
        proof {
            assert(all@.take(i + 1).drop_last() =~= all@.take(i as int));
        }
        if all[i].is_media_spoiler != Some(true) {
            kept.push(clone_tag(&all[i]));
        }
    }
    assert(all@.take(all@.len() as int) =~= all@);
    // Stable insertion by descending rank.
    let mut sorted: Vec<AniListTag> = Vec::new();
    for i in 0..kept.len()
        invariant
            sorted@ == sort_desc(kept@.take(i as int), tag_rank()),
    {
        let x = clone_tag(&kept[i]);
        let kx: i32 = match x.rank {
            Some(r) => r,
            None => 0,
        };
        let mut p: usize = 0;
        while p < sorted.len() && rank_or_zero(&sorted[p]) >= kx
            invariant
                p <= sorted@.len(),
                kx == tag_key(x),
                forall|k: int| 0 <= k < p ==> tag_key(#[trigger] sorted@[k]) >= tag_key(x),
            decreases sorted.len() - p,
        {
            p = p + 1;
        }
        proof {
            assert(first_smaller(sorted@, tag_rank()(x), tag_rank(), p as int));
            lemma_insert_desc_at(sorted@, x, tag_rank(), p as int);
            assert(kept@.take(i + 1).drop_last() =~= kept@.take(i as int));
        }
        sorted.insert(p, x);
    }
    assert(kept@.take(kept@.len() as int) =~= kept@);
    // The first twelve names.
    let mut names: Vec<Option<String>> = Vec::new();
    let n: usize = if sorted.len() < 12 { sorted.len() } else { 12 };
    for i in 0..n
        invariant
            n <= sorted@.len(),
            names@.len() == i,
            opt_views(names@) == tag_names(sorted@.take(i as int)),
    {
        let ghost before = names@;
        let c = clone_opt(&sorted[i].name);
        names.push(c);
        proof {
            assert forall|k: int| 0 <= k < i + 1 implies #[trigger] opt_views(names@)[k]
                == tag_names(sorted@.take(i + 1))[k] by {
                if k < i {
                    assert(names@[k] == before[k]);
                    assert(opt_views(before)[k] == tag_names(sorted@.take(i as int))[k]);
                } else {
                    assert(names@[k] == c);
                }
            }
            assert(opt_views(names@) =~= tag_names(sorted@.take(i + 1)));
        }
    }
    assert(sorted@.take(n as int) =~= first_n(sorted@, 12));
    unique_strings(names)
}

/// The studios of a record, as listed.
pub open spec fn studio_nodes(m: AniListMedia) -> Seq<AniListStudio> {
    match m.studios {
        Some(s) => seq_or_empty(s.nodes),
        None => Seq::empty(),
    }
}

/// The studios marked as animation studios, in order.
pub open spec fn animation_only(ns: Seq<AniListStudio>) -> Seq<AniListStudio>
    decreases ns.len(),
{
    if ns.len() == 0 {
        seq![]
    } else if ns.last().is_animation_studio == Some(true) {
        animation_only(ns.drop_last()).push(ns.last())
    } else {
        animation_only(ns.drop_last())
    }
}

/// The names of studios.
pub open spec fn studio_names(ns: Seq<AniListStudio>) -> Seq<Option<Seq<char>>> {
    ns.map_values(|s: AniListStudio| opt_view(s.name))
}

/// The studios shown for a title: the animation studios when there are any, else all
/// listed studios; names trimmed and without repeats.
pub open spec fn studios_spec(m: AniListMedia) -> Seq<Seq<char>> {
    let nodes = studio_nodes(m);
    let animation = animation_only(nodes);
    unique_trimmed(studio_names(if animation.len() == 0 { nodes } else { animation }))
}

/// The studios shown for a record.
pub fn studios_of(m: &AniListMedia) -> (r: Vec<String>)
    ensures
        views(r@) == studios_spec(*m),
{
    let empty: Vec<AniListStudio> = Vec::new();
    let nodes: &Vec<AniListStudio> = match &m.studios {
        Some(s) => match &s.nodes {
            Some(v) => v,
            None => &empty,
        },
        None => &empty,
    };
    assert(nodes@ == studio_nodes(*m));
    let mut all_names: Vec<Option<String>> = Vec::new();
    let mut animation_names: Vec<Option<String>> = Vec::new();
    for i in 0..nodes.len()
        invariant
            all_names@.len() == i,
            opt_views(all_names@) == studio_names(nodes@.take(i as int)),
            opt_views(animation_names@) == studio_names(animation_only(nodes@.take(i as int))),
            animation_names@.len() == animation_only(nodes@.take(i as int)).len(),
    {
        proof {
            assert(nodes@.take(i + 1).drop_last() =~= nodes@.take(i as int));
        }
        let ghost before_all = all_names@;
        let c = clone_opt(&nodes[i].name);
        all_names.push(c);
        proof {
            assert forall|k: int| 0 <= k < i + 1 implies #[trigger] opt_views(all_names@)[k]
                == studio_names(nodes@.take(i + 1))[k] by {
                if k < i {
                    assert(all_names@[k] == before_all[k]);
                    assert(opt_views(before_all)[k] == studio_names(nodes@.take(i as int))[k]);
                } else {
                    assert(all_names@[k] == c);
                }
            }
            assert(opt_views(all_names@) =~= studio_names(nodes@.take(i + 1)));
        }
        if nodes[i].is_animation_studio == Some(true) {
            let ghost before_anim = animation_names@;
            let ghost prev = animation_only(nodes@.take(i as int));
            let d = clone_opt(&nodes[i].name);
            animation_names.push(d);
            proof {
                let now = animation_only(nodes@.take(i + 1));
                assert(now == prev.push(nodes@[i as int]));
                assert forall|k: int| 0 <= k < now.len() implies #[trigger] opt_views(
                    animation_names@,
                )[k] == studio_names(now)[k] by {
                    if k < prev.len() {
                        assert(animation_names@[k] == before_anim[k]);
                        assert(opt_views(before_anim)[k] == studio_names(prev)[k]);
                    } else {
                        assert(animation_names@[k] == d);
                    }
                }
                assert(opt_views(animation_names@) =~= studio_names(now));
            }
        }
    }
    assert(nodes@.take(nodes@.len() as int) =~= nodes@);
    if animation_names.len() == 0 {
        unique_strings(all_names)
    } else {
        unique_strings(animation_names)
    }
}

/// The full name on a staff edge, when it is there.
pub open spec fn edge_name(e: AniListStaffEdge) -> Option<Seq<char>> {
    match e.node {
        Some(n) => match n.name {
            Some(nm) => opt_view(nm.full),
            None => None,
        },
        None => None,
    }
}

/// The staff edges of a record.
pub open spec fn staff_edges(m: AniListMedia) -> Seq<AniListStaffEdge> {
    match m.staff {
        Some(s) => seq_or_empty(s.edges),
        None => Seq::empty(),
    }
}

/// The credits of the edges with a non-empty name: (name, role), in order.
pub open spec fn staff_credits(es: Seq<AniListStaffEdge>) -> Seq<(Seq<char>, Option<Seq<char>>)>
    decreases es.len(),
{
    if es.len() == 0 {
        seq![]
    } else {
        let prev = staff_credits(es.drop_last());
        match edge_name(es.last()) {
            Some(n) => if n.len() > 0 {
                prev.push((n, opt_view(es.last().role)))
            } else {
                prev
            },
            None => prev,
        }
    }
}

/// The view of a list of credits.
pub open spec fn credits_view(v: Seq<StaffCredit>) -> Seq<(Seq<char>, Option<Seq<char>>)> {
    v.map_values(|c: StaffCredit| (c.name@, opt_view(c.role)))
}

/// The staff credits of a title.
pub open spec fn staff_spec(m: AniListMedia) -> Seq<(Seq<char>, Option<Seq<char>>)> {
    staff_credits(staff_edges(m))
}

fn edge_full_name(e: &AniListStaffEdge) -> (r: Option<String>)
    ensures
        opt_view(r) == edge_name(*e),
{
    match &e.node {
        Some(n) => match &n.name {
            Some(nm) => clone_opt(&nm.full),
            None => None,
        },
        None => None,
    }
}

/// The staff credits of a record.
pub fn staff_of(m: &AniListMedia) -> (r: Vec<StaffCredit>)
    ensures
        credits_view(r@) == staff_spec(*m),
{
    let empty: Vec<AniListStaffEdge> = Vec::new();
    let edges: &Vec<AniListStaffEdge> = match &m.staff {
        Some(s) => match &s.edges {
            Some(v) => v,
            None => &empty,
        },
        None => &empty,
    };
    assert(edges@ == staff_edges(*m));
    let mut out: Vec<StaffCredit> = Vec::new();
    for i in 0..edges.len()
        invariant
            credits_view(out@) == staff_credits(edges@.take(i as int)),
    {
        proof {
            assert(edges@.take(i + 1).drop_last() =~= edges@.take(i as int));
        }
        match edge_full_name(&edges[i]) {
            Some(name) => {
                if name.as_str().unicode_len() > 0 {
                    let role = clone_opt(&edges[i].role);
                    out.push(StaffCredit { name, role });
                    assert(credits_view(out@) =~= staff_credits(edges@.take(i + 1)));
                }
            },
            None => {},
        }
    }
    assert(edges@.take(edges@.len() as int) =~= edges@);
    out
}

/// Whether a role names an author: it contains one of the creator, story, director or
/// series-composition roles.
pub open spec fn is_author_role(role: Seq<char>) -> bool {
    contains_seq(role, "Original Creator"@) || contains_seq(role, "Original Story"@)
        || contains_seq(role, "Story"@) || contains_seq(role, "Director"@) || contains_seq(
        role,
        "Series Composition"@,
    )
}

fn author_role(role: &String) -> (r: bool)
    ensures
        r == is_author_role(role@),
{
    contains(role.as_str(), "Original Creator") || contains(role.as_str(), "Original Story")
        || contains(role.as_str(), "Story") || contains(role.as_str(), "Director") || contains(
        role.as_str(),
        "Series Composition",
    )
}

/// The names of credits whose role names an author, in order.
pub open spec fn author_names(cs: Seq<(Seq<char>, Option<Seq<char>>)>) -> Seq<Option<Seq<char>>>
    decreases cs.len(),
{
    if cs.len() == 0 {
        seq![]
    } else {
        let prev = author_names(cs.drop_last());
        match cs.last().1 {
            Some(role) => if is_author_role(role) {
                prev.push(Some(cs.last().0))
            } else {
                prev
            },
            None => prev,
        }
    }
}

/// The authors of a title: the credited authors, trimmed and without repeats; the
/// studios when no credit names an author.
pub open spec fn authors_spec(m: AniListMedia, studios: Seq<Seq<char>>) -> Seq<Seq<char>> {
    let names = author_names(staff_spec(m));
    if names.len() == 0 {
        studios
    } else {
        unique_trimmed(names)
    }
}

/// The authors of a record, given its studios.
pub fn authors_of(m: &AniListMedia, studios: &Vec<String>) -> (r: Vec<String>)
    ensures
        views(r@) == authors_spec(*m, views(studios@)),
{
    let credits = staff_of(m);
    let mut names: Vec<Option<String>> = Vec::new();
    for i in 0..credits.len()
        invariant
            credits_view(credits@) == staff_spec(*m),
            opt_views(names@) == author_names(credits_view(credits@).take(i as int)),
            names@.len() == author_names(credits_view(credits@).take(i as int)).len(),
    {
        proof {
            let cv = credits_view(credits@);
            assert(cv.take(i + 1).drop_last() =~= cv.take(i as int));
            assert(cv.take(i + 1).last() == cv[i as int]);
        }
        match &credits[i].role {
            Some(role) => {
                if author_role(role) {
                    names.push(Some(credits[i].name.clone()));
                    assert(opt_views(names@) =~= author_names(
                        credits_view(credits@).take(i + 1),
                    ));
                }
            },
            None => {},
        }
    }
    assert(credits_view(credits@).take(credits@.len() as int) =~= credits_view(credits@));
    if names.len() == 0 {
        clone_strings(studios)
    } else {
        unique_strings(names)
    }
}

/// The links of records with both a site and a URL, as (site, url), in order.
pub open spec fn links_spec(ls: Seq<AniListExternalLink>) -> Seq<(Seq<char>, Seq<char>)>
    decreases ls.len(),
{
    if ls.len() == 0 {
        seq![]
    } else {
        let prev = links_spec(ls.drop_last());
        match (opt_view(ls.last().site), opt_view(ls.last().url)) {
            (Some(site), Some(url)) => prev.push((site, url)),
            _ => prev,
        }
    }
}

/// The view of a list of links.
pub open spec fn links_view(v: Seq<ExternalLink>) -> Seq<(Seq<char>, Seq<char>)> {
    v.map_values(|l: ExternalLink| (l.site@, l.url@))
}

/// The external links of a record that have both a site and a URL.
pub fn external_links_of(m: &AniListMedia) -> (r: Vec<ExternalLink>)
    ensures
        links_view(r@) == links_spec(seq_or_empty(m.external_links)),
{
    let empty: Vec<AniListExternalLink> = Vec::new();
    let links: &Vec<AniListExternalLink> = match &m.external_links {
        Some(v) => v,
        None => &empty,
    };
    let mut out: Vec<ExternalLink> = Vec::new();
    for i in 0..links.len()
        invariant
            links_view(out@) == links_spec(links@.take(i as int)),
    {
        proof {
            assert(links@.take(i + 1).drop_last() =~= links@.take(i as int));
        }
        match (&links[i].site, &links[i].url) {
            (Some(site), Some(url)) => {
                out.push(ExternalLink { site: site.clone(), url: url.clone() });
                assert(links_view(out@) =~= links_spec(links@.take(i + 1)));
            },
            _ => {},
        }
    }
    assert(links@.take(links@.len() as int) =~= links@);
    out
}

/// `s` without the elements equal to `x`, in order.
pub open spec fn without(s: Seq<Seq<char>>, x: Seq<char>) -> Seq<Seq<char>>
    decreases s.len(),
{
    if s.len() == 0 {
        seq![]
    } else if s.last() == x {
        without(s.drop_last(), x)
    } else {
        without(s.drop_last(), x).push(s.last())
    }
}

/// The candidate alternative titles: romaji, English and native titles, then synonyms.
pub open spec fn title_candidates(m: AniListMedia) -> Seq<Option<Seq<char>>> {
    let (romaji, english, native) = match m.title {
        Some(t) => (opt_view(t.romaji), opt_view(t.english), opt_view(t.native)),
        None => (None, None, None),
    };
    seq![romaji, english, native] + seq_or_empty(m.synonyms).map_values(
        |s: String| Some(s@),
    )
}

/// The alternative titles: the candidates trimmed and without repeats, except the
/// displayed title.
pub open spec fn alternative_titles_spec(m: AniListMedia) -> Seq<Seq<char>> {
    without(unique_trimmed(title_candidates(m)), title_spec(m))
}

/// The alternative titles of a record.
pub fn alternative_titles_of(m: &AniListMedia) -> (r: Vec<String>)
    ensures
        views(r@) == alternative_titles_spec(*m),
{
    let primary = title_of(m);
    let mut values: Vec<Option<String>> = Vec::new();
    match &m.title {
        Some(t) => {
            values.push(clone_opt(&t.romaji));
            values.push(clone_opt(&t.english));
            values.push(clone_opt(&t.native));
        },
        None => {
            values.push(None);
            values.push(None);
            values.push(None);
        },
    }
    let ghost head = opt_views(values@);
    match &m.synonyms {
        Some(syns) => {
            for i in 0..syns.len()
                invariant
                    values@.len() == 3 + i,
                    head.len() == 3,
                    opt_views(values@) == head + syns@.take(i as int).map_values(
                        |s: String| Some(s@),
                    ),
            {
                let ghost before = values@;
                let c = syns[i].clone();
                values.push(Some(c));
                proof {
                    let want = head + syns@.take(i + 1).map_values(|s: String| Some(s@));
                    let had = head + syns@.take(i as int).map_values(|s: String| Some(s@));
                    assert forall|k: int| 0 <= k < 3 + i + 1 implies #[trigger] opt_views(
                        values@,
                    )[k] == want[k] by {
                        if k < 3 + i {
                            assert(values@[k] == before[k]);
                            assert(opt_views(before)[k] == had[k]);
                            if k >= 3 {
                                assert(syns@.take(i as int)[k - 3] == syns@.take(i + 1)[k - 3]);
                            }
                        } else {
                            assert(values@[k] == Some(c));
                            assert(syns@.take(i + 1)[i as int] == syns@[i as int]);
                        }
                    }
                    assert(opt_views(values@) =~= want);
                }
            }
            assert(syns@.take(syns@.len() as int) =~= syns@);
        },
        None => {},
    }
    assert(opt_views(values@) =~= title_candidates(*m));
    let unique = unique_strings(values);
    let mut out: Vec<String> = Vec::new();
    for i in 0..unique.len()
        invariant
            views(out@) == without(views(unique@).take(i as int), primary@),
    {
        proof {
            assert(views(unique@).take(i + 1).drop_last() =~= views(unique@).take(i as int));
        }
        if unique[i] != primary {
            out.push(unique[i].clone());
            assert(views(out@) =~= without(views(unique@).take(i + 1), primary@));
        }
    }
    assert(views(unique@).take(unique@.len() as int) =~= views(unique@));
    out
}

// ---------------------------------------------------------------------------
// Episodes
// ---------------------------------------------------------------------------

/// The airing-schedule entries of a record.
pub open spec fn schedule_nodes(m: AniListMedia) -> Seq<AniListAiringEpisode> {
    match m.airing_schedule {
        Some(s) => seq_or_empty(s.nodes),
        None => Seq::empty(),
    }
}

/// The streaming episodes of a record.
pub open spec fn streaming_of(m: AniListMedia) -> Seq<AniListStreamingEpisode> {
    seq_or_empty(m.streaming_episodes)
}

/// The largest scheduled episode number, or 0.
pub open spec fn max_scheduled(ns: Seq<AniListAiringEpisode>) -> nat
    decreases ns.len(),
{
    if ns.len() == 0 {
        0
    } else {
        let prev = max_scheduled(ns.drop_last());
        match ns.last().episode {
            Some(e) => if e > prev {
                e as nat
            } else {
                prev
            },
            None => prev,
        }
    }
}

/// The airing time of episode `n`: that of the last schedule entry for `n`.
pub open spec fn scheduled_airing(ns: Seq<AniListAiringEpisode>, n: int) -> Option<i64>
    decreases ns.len(),
{
    if ns.len() == 0 {
        None
    } else if ns.last().episode == Some(n as u32) && 0 <= n <= u32::MAX {
        ns.last().airing_at
    } else {
        scheduled_airing(ns.drop_last(), n)
    }
}

/// The number of episodes listed: the largest of the episode count, the number of
/// streaming episodes (as a `u32`) and the largest scheduled episode number.
pub open spec fn episode_total(m: AniListMedia) -> nat {
    let declared: nat = match m.episodes {
        Some(e) => e as nat,
        None => 0,
    };
    let streamed: nat = (streaming_of(m).len() as u32) as nat;
    let a: nat = if declared >= streamed { declared } else { streamed };
    let b = max_scheduled(schedule_nodes(m));
    if a >= b { a } else { b }
}

/// The streaming episode for episode number `n`, when there is one.
pub open spec fn streaming_at(m: AniListMedia, n: int) -> Option<AniListStreamingEpisode> {
    let s = streaming_of(m);
    if 1 <= n && n - 1 < s.len() {
        Some(s[n - 1])
    } else {
        None
    }
}

/// Episode number `n` of a title: its id is the title id, a colon and `n`; its title,
/// thumbnail and source come from the matching streaming episode (the title defaulting
/// to `Episode n`), its duration from the title, its airing time from the schedule.
pub open spec fn episode_spec(e: EpisodeMetadata, m: AniListMedia, n: int) -> bool {
    let se = streaming_at(m, n);
    &&& e.id@ == signed_decimal(m.id as int) + seq![':'] + decimal(n as nat)
    &&& e.anime_id@ == signed_decimal(m.id as int)
    &&& e.season_number is None
    &&& e.number == n
    &&& opt_view(e.title) == Some(
        match se {
            Some(x) => match opt_view(x.title) {
                Some(t) => t,
                None => "Episode "@ + decimal(n as nat),
            },
            None => "Episode "@ + decimal(n as nat),
        },
    )
    &&& e.synopsis is None
    &&& opt_view(e.thumbnail) == match se {
        Some(x) => opt_view(x.thumbnail),
        None => None,
    }
    &&& e.duration_minutes == m.duration
    &&& opt_view(e.source) == match se {
        Some(x) => opt_view(x.site),
        None => None,
    }
    &&& opt_view(e.aired_at) == match scheduled_airing(schedule_nodes(m), n) {
        Some(ts) => timestamp_rfc3339(ts as int),
        None => None,
    }
}

/// The episode list of a title: episodes `1..=episode_total`.
pub open spec fn episodes_spec(v: Seq<EpisodeMetadata>, m: AniListMedia) -> bool {
    &&& v.len() == episode_total(m)
    &&& forall|i: int| 0 <= i < v.len() ==> episode_spec(#[trigger] v[i], m, i + 1)
}

fn schedule_lookup(ns: &Vec<AniListAiringEpisode>, n: u32) -> (r: Option<i64>)
    ensures
        r == scheduled_airing(ns@, n as int),
{
    let mut j: usize = ns.len();
    assert(ns@.take(j as int) =~= ns@);
    while j > 0
        invariant
            j <= ns@.len(),
            scheduled_airing(ns@, n as int) == scheduled_airing(ns@.take(j as int), n as int),
        decreases j,
    {
        proof {
            assert(ns@.take(j as int).drop_last() =~= ns@.take(j - 1));
        }
        if ns[j - 1].episode == Some(n) {
            return ns[j - 1].airing_at;
        }
        j = j - 1;
    }
    None
}

/// The episode list of a record.
pub fn episodes_of(m: &AniListMedia) -> (r: Vec<EpisodeMetadata>)
    ensures
        episodes_spec(r@, *m),
{
    let no_streams: Vec<AniListStreamingEpisode> = Vec::new();
    let streaming: &Vec<AniListStreamingEpisode> = match &m.streaming_episodes {
        Some(v) => v,
        None => &no_streams,
    };
    let no_nodes: Vec<AniListAiringEpisode> = Vec::new();
    let nodes: &Vec<AniListAiringEpisode> = match &m.airing_schedule {
        Some(s) => match &s.nodes {
            Some(v) => v,
            None => &no_nodes,
        },
        None => &no_nodes,
    };
    assert(streaming@ == streaming_of(*m));
    assert(nodes@ == schedule_nodes(*m));
    // The largest scheduled episode number.
    let mut max_key: u32 = 0;
    for i in 0..nodes.len()
        invariant
            max_key == max_scheduled(nodes@.take(i as int)),
    {
        proof {
            assert(nodes@.take(i + 1).drop_last() =~= nodes@.take(i as int));
        }
        match nodes[i].episode {
            Some(e) => if e > max_key {
                max_key = e;
            },
            None => {},
        }
    }
    assert(nodes@.take(nodes@.len() as int) =~= nodes@);
    let mut count: u32 = match m.episodes {
        Some(e) => e,
        None => 0,
    };
    let streamed = streaming.len() as u32;
    if streamed > count {
        count = streamed;
    }
    if max_key > count {
        count = max_key;
    }
    assert(count == episode_total(*m));
    let id_text = decimal_string(m.id);
    let mut out: Vec<EpisodeMetadata> = Vec::new();
    let mut number: u32 = 0;
    while number < count
        invariant
            number <= count,
            count == episode_total(*m),
            id_text@ == signed_decimal(m.id as int),
            streaming@ == streaming_of(*m),
            nodes@ == schedule_nodes(*m),
            out@.len() == number,
            forall|i: int| 0 <= i < number ==> episode_spec(#[trigger] out@[i], *m, i + 1),
        decreases count - number,
    {
        number = number + 1;
        let mut id = id_text.clone();
        push_char(&mut id, ':');
        push_decimal(&mut id, number as u64);
        let idx = (number - 1) as usize;
        let (title, thumbnail, source) = if idx < streaming.len() {
            let se = &streaming[idx];
            let title = match &se.title {
                Some(t) => t.clone(),
                None => {
                    let mut t = String::from_str("Episode ");
                    push_decimal(&mut t, number as u64);
                    t
                },
            };
            (title, clone_opt(&se.thumbnail), clone_opt(&se.site))
        } else {
            let mut t = String::from_str("Episode ");
            push_decimal(&mut t, number as u64);
            (t, None, None)
        };
        let aired_at = match schedule_lookup(nodes, number) {
            Some(ts) => rfc3339_of_timestamp(ts),
            None => None,
        };
        let e = EpisodeMetadata {
            id,
            anime_id: id_text.clone(),
            season_number: None,
            number,
            title: Some(title),
            synopsis: None,
            thumbnail,
            duration_minutes: m.duration,
            source,
            aired_at,
        };
        proof {
            assert(e.id@ =~= signed_decimal(m.id as int) + seq![':'] + decimal(number as nat));
        }
        assert(episode_spec(e, *m, number as int));
        out.push(e);
        assert(forall|i: int| 0 <= i < number ==> episode_spec(#[trigger] out@[i], *m, i + 1));
    }
    out
}

// ---------------------------------------------------------------------------
// Whole records
// ---------------------------------------------------------------------------

/// The preview of a title.
pub open spec fn preview_spec(p: AnimePreview, m: AniListMedia) -> bool {
    &&& p.id@ == signed_decimal(m.id as int)
    &&& p.title@ == title_spec(m)
    &&& opt_view(p.poster) == image_spec(m)
    &&& opt_view(p.banner) == opt_view(m.banner_image)
    &&& opt_view(p.synopsis) == clean_description_spec(opt_view(m.description))
    &&& p.score == score_spec(m)
    &&& p.year == year_spec(m)
    &&& p.content_type == content_type_spec(m)
    &&& views(p.genres@) == views(seq_or_empty(m.genres))
    &&& p.season_entries is None
}

/// A copy of an optional list of strings, or an empty list.
fn strings_or_empty(o: &Option<Vec<String>>) -> (r: Vec<String>)
    ensures
        views(r@) == views(seq_or_empty(*o)),
{
    match o {
        Some(v) => clone_strings(v),
        None => Vec::new(),
    }
}

/// The preview of a record, as catalogs and searches list it.
pub fn to_preview(m: &AniListMedia) -> (p: AnimePreview)
    ensures
        preview_spec(p, *m),
{
    AnimePreview {
        id: decimal_string(m.id),
        title: title_of(m),
        poster: image_of(m),
        banner: clone_opt(&m.banner_image),
        synopsis: clean_description(&m.description),
        score: score_of(m),
        year: year_of(m),
        content_type: content_type_of(m),
        genres: strings_or_empty(&m.genres),
        season_entries: None,
    }
}

/// The lowercase mapping of an optional string.
pub open spec fn opt_lowercase(o: Option<Seq<char>>) -> Option<Seq<char>> {
    match o {
        Some(s) => Some(lowercase(s)),
        None => None,
    }
}

fn lowercase_opt(o: &Option<String>) -> (r: Option<String>)
    ensures
        opt_view(r) == opt_lowercase(opt_view(*o)),
{
    match o {
        Some(s) => Some(to_lowercase(s.as_str())),
        None => None,
    }
}

/// The native title, when there is one.
pub open spec fn native_title(m: AniListMedia) -> Option<Seq<char>> {
    match m.title {
        Some(t) => opt_view(t.native),
        None => None,
    }
}

/// The full metadata of a title. A manga has no season, duration or episodes, its
/// season year is its start year, and its episode count is the positive chapter count,
/// else the positive volume count. The update time is the rendering of AniList's
/// timestamp when that timestamp is present and renders; otherwise it is the current time.
pub open spec fn metadata_spec(r: AnimeMetadata, m: AniListMedia) -> bool {
    let manga = is_manga_spec(m);
    let description = clean_description_spec(opt_view(m.description));
    &&& r.id@ == signed_decimal(m.id as int)
    &&& r.title@ == title_spec(m)
    &&& opt_view(r.original_title) == native_title(m)
    &&& views(r.alternative_titles@) == alternative_titles_spec(m)
    &&& opt_view(r.synopsis) == description
    &&& opt_view(r.description) == description
    &&& opt_view(r.poster) == image_spec(m)
    &&& opt_view(r.banner) == (if m.banner_image is Some {
        opt_view(m.banner_image)
    } else {
        image_spec(m)
    })
    &&& r.year == year_spec(m)
    &&& opt_view(r.season) == (if manga {
        None
    } else {
        opt_lowercase(opt_view(m.season))
    })
    &&& r.season_year == (if manga {
        date_year(m.start_date)
    } else {
        year_spec(m)
    })
    &&& opt_view(r.status) == opt_lowercase(opt_view(m.status))
    &&& r.content_type == content_type_spec(m)
    &&& opt_view(r.source) == opt_lowercase(opt_view(m.source))
    &&& r.duration_minutes == (if manga {
        None
    } else {
        m.duration
    })
    &&& r.episode_count == (if manga {
        if positive_spec(m.chapters) is Some {
            positive_spec(m.chapters)
        } else {
            positive_spec(m.volumes)
        }
    } else {
        m.episodes
    })
    &&& r.score == score_spec(m)
    &&& r.rank == rank_spec(m)
    &&& r.popularity == m.popularity
    &&& r.rating is None
    &&& views(r.genres@) == views(seq_or_empty(m.genres))
    &&& views(r.tags@) == tags_spec(m)
    &&& views(r.studios@) == studios_spec(m)
    &&& views(r.authors@) == authors_spec(m, studios_spec(m))
    &&& credits_view(r.staff@) == staff_spec(m)
    &&& opt_view(r.country_of_origin) == opt_view(m.country_of_origin)
    &&& opt_view(r.start_date) == fuzzy_date_spec(m.start_date)
    &&& opt_view(r.end_date) == fuzzy_date_spec(m.end_date)
    &&& opt_view(r.site_url) == opt_view(m.site_url)
    &&& opt_view(r.trailer_url) == trailer_url_spec(m.trailer)
    &&& links_view(r.external_links@) == links_spec(seq_or_empty(m.external_links))
    &&& (if manga {
        r.episodes@.len() == 0
    } else {
        episodes_spec(r.episodes@, m)
    })
    &&& (match r.updated_at {
        Some(t) => is_rfc3339_instant(t@),
        None => false,
    })
    &&& (match m.updated_at {
        Some(ts) => match timestamp_rfc3339(ts as int) {
            Some(text) => opt_view(r.updated_at) == Some(text),
            None => true,
        },
        None => true,
    })
}

/// The update time: AniList's timestamp rendered, else the current time.
fn updated_at_text(updated_at: Option<i64>) -> (r: String)
    ensures
        is_rfc3339_instant(r@),
        match updated_at {
            Some(ts) => match timestamp_rfc3339(ts as int) {
                Some(text) => r@ == text,
                None => true,
            },
            None => true,
        },
{
    let rendered = match updated_at {
        Some(ts) => rfc3339_of_timestamp(ts),
        None => None,
    };
    match rendered {
        Some(text) => {
            assert(instant_rfc3339(updated_at->0 as int, 0) == Some(text@));
            text
        },
        None => now_rfc3339(),
    }
}

/// The full metadata of a record.
pub fn to_metadata(m: &AniListMedia) -> (r: AnimeMetadata)
    ensures
        metadata_spec(r, *m),
{
    let description = clean_description(&m.description);
    let studios = studios_of(m);
    let is_manga = is_manga_media(m);
    let banner = if m.banner_image.is_some() {
        clone_opt(&m.banner_image)
    } else {
        image_of(m)
    };
    let native = match &m.title {
        Some(t) => clone_opt(&t.native),
        None => None,
    };
    let season = if is_manga {
        None
    } else {
        lowercase_opt(&m.season)
    };
    let season_year = if is_manga {
        start_year(&m.start_date)
    } else {
        year_of(m)
    };
    let episode_count = if is_manga {
        let chapters = positive_number(m.chapters);
        if chapters.is_some() {
            chapters
        } else {
            positive_number(m.volumes)
        }
    } else {
        m.episodes
    };
    let authors = authors_of(m, &studios);
    let episodes = if is_manga {
        Vec::new()
    } else {
        episodes_of(m)
    };
    AnimeMetadata {
        id: decimal_string(m.id),
        title: title_of(m),
        original_title: native,
        alternative_titles: alternative_titles_of(m),
        synopsis: clone_opt(&description),
        description,
        poster: image_of(m),
        banner,
        year: year_of(m),
        season,
        season_year,
        status: lowercase_opt(&m.status),
        content_type: content_type_of(m),
        source: lowercase_opt(&m.source),
        duration_minutes: if is_manga {
            None
        } else {
            m.duration
        },
        episode_count,
        score: score_of(m),
        rank: rank_of(m),
        popularity: m.popularity,
        rating: None,
        genres: strings_or_empty(&m.genres),
        tags: tags_of(m),
        authors,
        studios,
        staff: staff_of(m),
        country_of_origin: clone_opt(&m.country_of_origin),
        start_date: fuzzy_date(&m.start_date),
        end_date: fuzzy_date(&m.end_date),
        site_url: clone_opt(&m.site_url),
        trailer_url: trailer_url(&m.trailer),
        external_links: external_links_of(m),
        episodes,
        updated_at: Some(updated_at_text(m.updated_at)),
    }
}


proof fn lemma_max_scheduled(ns: Seq<AniListAiringEpisode>)
    ensures
        max_scheduled(ns) <= u32::MAX,
        forall|k: int| 0 <= k < ns.len() && (#[trigger] ns[k]).episode is Some ==> ns[k].episode->0
            <= max_scheduled(ns),
        max_scheduled(ns) == 0 || exists|k: int| 0 <= k < ns.len() && (#[trigger] ns[k]).episode
            == Some(max_scheduled(ns) as u32),
    decreases ns.len(),
{
    if ns.len() > 0 {
        let init = ns.drop_last();
        lemma_max_scheduled(init);
        assert forall|k: int| 0 <= k < ns.len() && (#[trigger] ns[k]).episode is Some implies ns[k].episode->0
            <= max_scheduled(ns) by {
            if k < init.len() {
                assert(init[k] == ns[k]);
            }
        }
        if max_scheduled(ns) != 0 {
            if max_scheduled(ns) == max_scheduled(init) {
                let k = choose|k: int| 0 <= k < init.len() && (#[trigger] init[k]).episode == Some(
                    max_scheduled(init) as u32,
                );
                assert(ns[k] == init[k]);
            } else {
                assert(ns[ns.len() - 1] == ns.last());
            }
        }
    }
}

/// The episode list of a title that is not a manga: as long as the largest of the declared
/// episode count, the number of streaming episodes and the largest scheduled episode
/// number (so never shorter than any of them, and as long as one of them); episode `i`
/// is numbered `i` and takes the title of the `i`-th streaming episode, else `Episode i`.
pub proof fn lemma_episode_list(r: AnimeMetadata, m: AniListMedia)
    requires
        metadata_spec(r, m),
        opt_view(m.media_type) != Some("MANGA"@),
    ensures
        forall|e: u32| m.episodes == Some(e) ==> e <= r.episodes@.len(),
        streaming_of(m).len() <= u32::MAX ==> streaming_of(m).len() <= r.episodes@.len(),
        forall|k: int| 0 <= k < schedule_nodes(m).len() && (#[trigger] schedule_nodes(m)[k]).episode is Some
            ==> schedule_nodes(m)[k].episode->0 <= r.episodes@.len(),
        r.episodes@.len() <= u32::MAX,
        r.episodes@.len() == 0 || m.episodes == Some(r.episodes@.len() as u32) || r.episodes@.len()
            == (streaming_of(m).len() as u32) as int || exists|k: int| 0 <= k
            < schedule_nodes(m).len() && (#[trigger] schedule_nodes(m)[k]).episode == Some(
            r.episodes@.len() as u32,
        ),
        forall|i: int| 0 <= i < r.episodes@.len() ==> (#[trigger] r.episodes@[i]).number == i + 1,
        forall|i: int|
            0 <= i < r.episodes@.len() && i < streaming_of(m).len() && opt_view(
                streaming_of(m)[i].title,
            ) is Some ==> opt_view((#[trigger] r.episodes@[i]).title) == opt_view(
                streaming_of(m)[i].title,
            ),
        forall|i: int|
            0 <= i < r.episodes@.len() && streaming_of(m).len() <= i ==> opt_view(
                (#[trigger] r.episodes@[i]).title,
            ) == Some("Episode "@ + decimal((i + 1) as nat)),
{
    lemma_max_scheduled(schedule_nodes(m));
    assert(episodes_spec(r.episodes@, m));
    let n = r.episodes@.len();
    let streamed: u32 = streaming_of(m).len() as u32;
    assert(streamed <= u32::MAX);
    assert(n <= u32::MAX);
    if n != 0 && n != (streaming_of(m).len() as u32) as int && !(m.episodes == Some(n as u32)) {
        assert(n == max_scheduled(schedule_nodes(m)));
    }
    assert forall|i: int| 0 <= i < r.episodes@.len() implies (#[trigger] r.episodes@[i]).number == i + 1 by {
        assert(episode_spec(r.episodes@[i], m, i + 1));
    }
    assert forall|i: int|
        0 <= i < r.episodes@.len() && i < streaming_of(m).len() && opt_view(
            streaming_of(m)[i].title,
        ) is Some implies opt_view((#[trigger] r.episodes@[i]).title) == opt_view(
            streaming_of(m)[i].title,
        ) by {
        assert(episode_spec(r.episodes@[i], m, i + 1));
        assert(streaming_at(m, i + 1) == Some(streaming_of(m)[i]));
    }
    assert forall|i: int|
        0 <= i < r.episodes@.len() && streaming_of(m).len() <= i implies opt_view(
            (#[trigger] r.episodes@[i]).title,
        ) == Some("Episode "@ + decimal((i + 1) as nat)) by {
        assert(episode_spec(r.episodes@[i], m, i + 1));
        assert(streaming_at(m, i + 1) is None);
    }
}

/// The content type follows the AniList type and format: a manga record is a light novel
/// exactly when its format is `NOVEL` and a manga otherwise; any other record is a movie,
/// an OVA, an ONA or a special exactly when its format is `MOVIE`, `OVA`, `ONA` or
/// `SPECIAL`, and an anime when its format is none of those. Previews and full metadata
/// agree on it.
pub proof fn lemma_content_type_from_format(p: AnimePreview, r: AnimeMetadata, m: AniListMedia)
    requires
        preview_spec(p, m),
        metadata_spec(r, m),
    ensures
        r.content_type == p.content_type,
        opt_view(m.media_type) == Some("MANGA"@) ==> ((p.content_type == ContentType::LightNovel)
            <==> opt_view(m.format) == Some("NOVEL"@)),
        opt_view(m.media_type) == Some("MANGA"@) ==> (p.content_type == ContentType::LightNovel
            || p.content_type == ContentType::Manga),
        opt_view(m.media_type) != Some("MANGA"@) ==> ((p.content_type == ContentType::Movie) <==> opt_view(
            m.format,
        ) == Some("MOVIE"@)),
        opt_view(m.media_type) != Some("MANGA"@) ==> ((p.content_type == ContentType::Ova) <==> opt_view(
            m.format,
        ) == Some("OVA"@)),
        opt_view(m.media_type) != Some("MANGA"@) ==> ((p.content_type == ContentType::Ona) <==> opt_view(
            m.format,
        ) == Some("ONA"@)),
        opt_view(m.media_type) != Some("MANGA"@) ==> ((p.content_type == ContentType::Special) <==> opt_view(
            m.format,
        ) == Some("SPECIAL"@)),
        opt_view(m.media_type) != Some("MANGA"@) ==> ((p.content_type == ContentType::Anime) <==> !(
        opt_view(m.format) == Some("MOVIE"@) || opt_view(m.format) == Some("OVA"@) || opt_view(m.format)
            == Some("ONA"@) || opt_view(m.format) == Some("SPECIAL"@))),
{
    reveal_strlit("MOVIE");
    reveal_strlit("OVA");
    reveal_strlit("ONA");
    reveal_strlit("SPECIAL");
    assert("MOVIE"@[0] != "OVA"@[0]);
    assert("MOVIE"@[0] != "SPECIAL"@[0]);
    assert("OVA"@[1] != "ONA"@[1]);
    assert("OVA"@[0] != "SPECIAL"@[0]);
    assert("ONA"@[0] != "SPECIAL"@[0]);
    assert("MOVIE"@[0] != "ONA"@[0]);
}

} // verus!
