//! The hybrid recommender: a taste profile built from liked and disliked titles,
//! candidates scored by affinity, quality and era, then diversified.
//!
//! Weights are in ten-thousandths, candidate scores in tenths of a point, and the
//! recommendation score in ten-thousandths, rounded half away from zero.
use vstd::prelude::*;
use crate::mapping::first_n;
use crate::sorting::{
    distinct_by, first_smaller, is_sorted_desc, lemma_insert_desc_at, lemma_sort_desc,
    lemma_sort_desc_distinct, sort_desc,
};
use crate::text::{
    ascii_alphanumeric, ascii_lower, ascii_upper, chars_of, concat, contains_string,
    is_ascii_alphanumeric, is_ascii_char, lowercase, trim_end, trim_start, white_space,
    push_signed, replace, replace_all, signed_decimal, strip_prefixes, to_lowercase, trim,
    trim_char, trim_char_end, trim_char_start, trim_char_vec, trim_start_matches, trim_str, views,
};
use crate::types::{
    AnimeMetadata, AnimePreview, ContentType, RecommendationPreview, RecommendationRequest,
    RecommendationSeed,
};

verus! {

broadcast use vstd::string::group_string_axioms;

// ---------------------------------------------------------------------------
// Seed weights
// ---------------------------------------------------------------------------

/// `v` limited to `[lo, hi]`.
pub open spec fn clamp_spec(v: int, lo: int, hi: int) -> int {
    if v < lo {
        lo
    } else if v > hi {
        hi
    } else {
        v
    }
}

/// The strength of a seed, in ten-thousandths: an explicit weight limited to
/// [0.1, 3.0]; else the distance of the score from 5 divided by 2.5, limited to
/// [0.2, 2.0]; else 1.
pub open spec fn seed_weight_spec(seed: RecommendationSeed) -> int {
    match seed.weight {
        Some(w) => clamp_spec(w as int, 1000, 30000),
        None => match seed.score {
            Some(s) => {
                let d = if s >= 5000 { s - 5000 } else { 5000 - s };
                clamp_spec(d * 4, 2000, 20000)
            },
            None => 10000,
        },
    }
}

/// The strength of a seed, in ten-thousandths.
pub fn seed_weight(seed: &RecommendationSeed) -> (r: i64)
    ensures
        r == seed_weight_spec(*seed),
        1000 <= r <= 30000,
{
    if let Some(w) = seed.weight {
        return if w < 1000 {
            1000
        } else if w > 30000 {
            30000
        } else {
            w
        };
    }
    if let Some(s) = seed.score {
        let d: i128 = if s >= 5000 { s as i128 - 5000 } else { 5000 - s as i128 };
        let v: i128 = d * 4;
        return if v < 2000 {
            2000
        } else if v > 20000 {
            20000
        } else {
            v as i64
        };
    }
    10000
}

// ---------------------------------------------------------------------------
// Features
// ---------------------------------------------------------------------------

/// The slug fold: ASCII letters and digits are kept, and any other run of characters
/// becomes a single dash, never at the start.
pub open spec fn slug_fold(cs: Seq<char>) -> Seq<char>
    decreases cs.len(),
{
    if cs.len() == 0 {
        seq![]
    } else {
        let prev = slug_fold(cs.drop_last());
        let c = cs.last();
        if ascii_alphanumeric(c) {
            prev.push(c)
        } else if prev.len() > 0 && prev.last() != '-' {
            prev.push('-')
        } else {
            prev
        }
    }
}

/// The feature slug of a label: trimmed, lowercased, folded, without edge dashes.
pub open spec fn normalize_spec(s: Seq<char>) -> Seq<char> {
    trim_char(slug_fold(lowercase(trim(s))), '-')
}

/// The feature slug of a label; slugging a slug gives it back unchanged.
pub fn normalize(value: &str) -> (r: String)
    ensures
        r@ == normalize_spec(value@),
        normalize_spec(r@) == r@,
{
    let trimmed = trim_str(value);
    let lower = to_lowercase(trimmed.as_str());
    let cs = chars_of(lower.as_str());
    let mut output: Vec<char> = Vec::new();
    let mut last_dash = false;
    for i in 0..cs.len()
        invariant
            output@ == slug_fold(cs@.take(i as int)),
            last_dash == (output@.len() > 0 && output@.last() == '-'),
    {
        let ch = cs[i];
        proof {
            assert(cs@.take(i + 1).drop_last() =~= cs@.take(i as int));
        }
        if is_ascii_alphanumeric(ch) {
            output.push(ch);
            last_dash = false;
        } else if !last_dash && output.len() > 0 {
            output.push('-');
            last_dash = true;
        }
    }
    assert(cs@.take(cs@.len() as int) =~= cs@);
    proof {
        lemma_normalize_fixed(value@);
    }
    trim_char_vec(&output, '-')
}

/// The shape of a slug: ASCII letters, digits and single dashes, with no dash at
/// either end.
pub open spec fn slug_shaped(r: Seq<char>) -> bool {
    &&& forall|i: int| 0 <= i < r.len() ==> ascii_alphanumeric(#[trigger] r[i]) || r[i] == '-'
    &&& forall|i: int| 0 <= i < r.len() - 1 ==> !(#[trigger] r[i] == '-' && r[i + 1] == '-')
    &&& r.len() > 0 ==> r[0] != '-' && r[r.len() - 1] != '-'
}

proof fn lemma_slug_fold_shape(cs: Seq<char>)
    ensures
        forall|i: int| 0 <= i < slug_fold(cs).len() ==> ascii_alphanumeric(#[trigger] slug_fold(cs)[i]) || slug_fold(cs)[i] == '-',
        forall|i: int| 0 <= i < slug_fold(cs).len() - 1 ==> !(#[trigger] slug_fold(cs)[i] == '-' && slug_fold(cs)[i + 1] == '-'),
        slug_fold(cs).len() > 0 ==> slug_fold(cs)[0] != '-',
    decreases cs.len(),
{
    if cs.len() > 0 {
        lemma_slug_fold_shape(cs.drop_last());
        let prev = slug_fold(cs.drop_last());
        let r = slug_fold(cs);
        assert forall|i: int| 0 <= i < r.len() implies ascii_alphanumeric(#[trigger] r[i]) || r[i] == '-' by {
            if i < prev.len() {
                assert(r[i] == prev[i]);
            }
        }
        assert forall|i: int| 0 <= i < r.len() - 1 implies !(#[trigger] r[i] == '-' && r[i + 1] == '-') by {
            if i + 1 < prev.len() {
                assert(r[i] == prev[i] && r[i + 1] == prev[i + 1]);
            } else if r.len() > prev.len() {
                assert(r[i] == prev[i]);
                assert(prev.last() == prev[i]);
            }
        }
        if r.len() > 0 && prev.len() > 0 {
            assert(r[0] == prev[0]);
        }
    }
}

proof fn lemma_trim_char_end_prefix(s: Seq<char>, c: char)
    ensures
        trim_char_end(s, c).len() <= s.len(),
        trim_char_end(s, c) == s.take(trim_char_end(s, c).len() as int),
        trim_char_end(s, c).len() > 0 ==> trim_char_end(s, c).last() != c,
    decreases s.len(),
{
    if s.len() > 0 && s.last() == c {
        lemma_trim_char_end_prefix(s.drop_last(), c);
        let t = trim_char_end(s.drop_last(), c);
        assert(s.drop_last().take(t.len() as int) =~= s.take(t.len() as int));
    } else {
        assert(s.take(s.len() as int) =~= s);
    }
}

/// Every feature slug is made of ASCII letters, digits and single dashes, with no dash
/// at either end.
pub proof fn lemma_normalize_shape(s: Seq<char>)
    ensures
        slug_shaped(normalize_spec(s)),
{
    let f = slug_fold(lowercase(trim(s)));
    lemma_slug_fold_shape(lowercase(trim(s)));
    assert(trim_char_start(f, '-') == f);
    lemma_trim_char_end_prefix(f, '-');
    let r = trim_char_end(f, '-');
    assert(r == normalize_spec(s));
    assert forall|i: int| 0 <= i < r.len() implies ascii_alphanumeric(#[trigger] r[i]) || r[i] == '-' by {
        assert(r[i] == f[i]);
    }
    assert forall|i: int| 0 <= i < r.len() - 1 implies !(#[trigger] r[i] == '-' && r[i + 1] == '-') by {
        assert(r[i] == f[i] && r[i + 1] == f[i + 1]);
    }
    if r.len() > 0 {
        assert(r[0] == f[0]);
        assert(r[r.len() - 1] == r.last());
    }
}

proof fn lemma_slug_fold_lower(cs: Seq<char>)
    requires
        forall|i: int| 0 <= i < cs.len() ==> !ascii_upper(#[trigger] cs[i]),
    ensures
        forall|i: int| 0 <= i < slug_fold(cs).len() ==> !ascii_upper(#[trigger] slug_fold(cs)[i]),
    decreases cs.len(),
{
    if cs.len() > 0 {
        let init = cs.drop_last();
        assert forall|i: int| 0 <= i < init.len() implies !ascii_upper(#[trigger] init[i]) by {
            assert(init[i] == cs[i]);
        }
        lemma_slug_fold_lower(init);
        let prev = slug_fold(init);
        let r = slug_fold(cs);
        assert(!ascii_upper(cs[cs.len() - 1]));
        assert forall|i: int| 0 <= i < r.len() implies !ascii_upper(#[trigger] r[i]) by {
            if i < prev.len() {
                assert(r[i] == prev[i]);
            }
        }
    }
}

proof fn lemma_slug_fold_prefix_fixed(t: Seq<char>, k: int)
    requires
        slug_shaped(t),
        0 <= k <= t.len(),
    ensures
        slug_fold(t.take(k)) == t.take(k),
    decreases k,
{
    if k > 0 {
        lemma_slug_fold_prefix_fixed(t, k - 1);
        let u = t.take(k);
        assert(u.drop_last() =~= t.take(k - 1));
        assert(u.last() == t[k - 1]);
        if !ascii_alphanumeric(t[k - 1]) {
            assert(t[k - 1] == '-');
            assert(k - 1 > 0);
            assert(!(t[k - 2] == '-' && t[k - 1] == '-'));
            assert(t.take(k - 1).last() == t[k - 2]);
        }
        assert(t.take(k - 1).push(t[k - 1]) =~= u);
    } else {
        assert(t.take(0) =~= Seq::<char>::empty());
    }
}

/// A slug without capital letters is its own slug.
proof fn lemma_slug_fixed(t: Seq<char>)
    requires
        slug_shaped(t),
        forall|i: int| 0 <= i < t.len() ==> !ascii_upper(#[trigger] t[i]),
    ensures
        normalize_spec(t) == t,
{
    if t.len() > 0 {
        assert(!white_space(t[0]));
        assert(!white_space(t[t.len() - 1]));
        assert(trim_start(t) == t);
        assert(trim_end(t) == t);
    } else {
        assert(trim_start(t) == t);
        assert(trim_end(t) == t);
    }
    assert(trim(t) == t);
    assert forall|i: int| 0 <= i < t.len() implies is_ascii_char(#[trigger] t[i]) by {
        assert(ascii_alphanumeric(t[i]) || t[i] == '-');
    }
    assert(t.map_values(|c: char| ascii_lower(c)) =~= t);
    assert(lowercase(t) == t);
    lemma_slug_fold_prefix_fixed(t, t.len() as int);
    assert(t.take(t.len() as int) =~= t);
    assert(slug_fold(t) == t);
    assert(trim_char_start(t, '-') == t);
    assert(trim_char_end(t, '-') == t);
}

proof fn lemma_normalize_fixed(s: Seq<char>)
    requires
        forall|i: int| 0 <= i < lowercase(trim(s)).len() ==> !ascii_upper(#[trigger] lowercase(trim(s))[i]),
    ensures
        normalize_spec(normalize_spec(s)) == normalize_spec(s),
{
    let l = lowercase(trim(s));
    let f = slug_fold(l);
    lemma_normalize_shape(s);
    lemma_slug_fold_shape(l);
    lemma_slug_fold_lower(l);
    assert(trim_char_start(f, '-') == f);
    lemma_trim_char_end_prefix(f, '-');
    let t = normalize_spec(s);
    assert(t == trim_char_end(f, '-'));
    assert forall|i: int| 0 <= i < t.len() implies !ascii_upper(#[trigger] t[i]) by {
        assert(t[i] == f[i]);
    }
    lemma_slug_fixed(t);
}

/// The name of a content type in features.
pub open spec fn content_type_name_spec(ct: ContentType) -> Seq<char> {
    match ct {
        ContentType::Anime => "anime"@,
        ContentType::Manga => "manga"@,
        ContentType::Manhwa => "manhwa"@,
        ContentType::Manhua => "manhua"@,
        ContentType::LightNovel => "light_novel"@,
        ContentType::Movie => "movie"@,
        ContentType::Ova => "ova"@,
        ContentType::Ona => "ona"@,
        ContentType::Special => "special"@,
    }
}

/// The name of a content type in features.
pub fn content_type_name(ct: &ContentType) -> (r: &'static str)
    ensures
        r@ == content_type_name_spec(*ct),
{
    match ct {
        ContentType::Anime => "anime",
        ContentType::Manga => "manga",
        ContentType::Manhwa => "manhwa",
        ContentType::Manhua => "manhua",
        ContentType::LightNovel => "light_novel",
        ContentType::Movie => "movie",
        ContentType::Ova => "ova",
        ContentType::Ona => "ona",
        ContentType::Special => "special",
    }
}

/// The five-year era of a year: the year divided by five, truncated toward zero, times five.
pub open spec fn era_of(y: int) -> int {
    if y >= 0 {
        (y / 5) * 5
    } else {
        -(((-y) / 5) * 5)
    }
}

/// The genre features of a list of genres.
pub open spec fn genre_features(genres: Seq<Seq<char>>) -> Seq<Seq<char>> {
    genres.map_values(|g: Seq<char>| "genre:"@ + normalize_spec(g))
}

/// The tag features of a list of tags.
pub open spec fn tag_features(tags: Seq<Seq<char>>) -> Seq<Seq<char>> {
    tags.map_values(|t: Seq<char>| "tag:"@ + normalize_spec(t))
}

/// The features every title has: a genre feature per genre, its type, and its era when
/// the year is known.
pub open spec fn base_features(genres: Seq<Seq<char>>, ct: ContentType, year: Option<i32>) -> Seq<
    Seq<char>,
> {
    genre_features(genres) + seq!["type:"@ + content_type_name_spec(ct)] + match year {
        Some(y) => seq!["era:"@ + signed_decimal(era_of(y as int))],
        None => Seq::<Seq<char>>::empty(),
    }
}

/// The features of a seed title: the base features, then a tag feature per tag.
pub open spec fn metadata_features(a: AnimeMetadata) -> Seq<Seq<char>> {
    base_features(views(a.genres@), a.content_type, a.year) + tag_features(views(a.tags@))
}

/// The features of a candidate title.
pub open spec fn preview_features(p: AnimePreview) -> Seq<Seq<char>> {
    base_features(views(p.genres@), p.content_type, p.year)
}

/// Appends a feature per label: `prefix` followed by the label's slug.
fn push_prefixed(out: &mut Vec<String>, prefix: &str, labels: &Vec<String>)
    ensures
        views(final(out)@) == views(old(out)@) + views(labels@).map_values(
            |g: Seq<char>| prefix@ + normalize_spec(g),
        ),
{
    let ghost start = views(out@);
    for i in 0..labels.len()
        invariant
            views(out@) == start + views(labels@).take(i as int).map_values(
                |g: Seq<char>| prefix@ + normalize_spec(g),
            ),
            out@.len() == start.len() + i,
    {
        let ghost before = out@;
        let slug = normalize(labels[i].as_str());
        let f = concat(prefix, slug.as_str());
        out.push(f);
        proof {
            let want = start + views(labels@).take(i + 1).map_values(
                |g: Seq<char>| prefix@ + normalize_spec(g),
            );
            assert forall|k: int| 0 <= k < out@.len() implies #[trigger] views(out@)[k]
                == want[k] by {
                if k < before.len() {
                    assert(out@[k] == before[k]);
                    assert(views(before)[k] == views(out@)[k]);
                } else {
                    assert(views(labels@).take(i + 1)[i as int] == labels@[i as int]@);
                }
            }
            assert(views(out@) =~= want);
        }
    }
    assert(views(labels@).take(labels@.len() as int) =~= views(labels@));
}

/// The base features of a title.
pub fn features_base(genres: &Vec<String>, ct: &ContentType, year: Option<i32>) -> (r: Vec<
    String,
>)
    ensures
        views(r@) == base_features(views(genres@), *ct, year),
{
    let mut features: Vec<String> = Vec::new();
    push_prefixed(&mut features, "genre:", genres);
    let t = concat("type:", content_type_name(ct));
    features.push(t);
    let ghost with_type = views(features@);
    match year {
        Some(y) => {
            let yy = y as i64;
            let era: i64 = if yy >= 0 {
                (yy / 5) * 5
            } else {
                -(((-yy) / 5) * 5)
            };
            let mut e = String::from_str("era:");
            push_signed(&mut e, era);
            features.push(e);
            assert(views(features@) =~= with_type.push("era:"@ + signed_decimal(era_of(y as int))));
        },
        None => {},
    }
    assert(views(features@) =~= base_features(views(genres@), *ct, year));
    features
}

/// The features of a seed title.
pub fn features_of_metadata(a: &AnimeMetadata) -> (r: Vec<String>)
    ensures
        views(r@) == metadata_features(*a),
{
    let mut features = features_base(&a.genres, &a.content_type, a.year);
    push_prefixed(&mut features, "tag:", &a.tags);
    features
}

/// The features of a candidate title.
pub fn features_of_preview(p: &AnimePreview) -> (r: Vec<String>)
    ensures
        views(r@) == preview_features(*p),
{
    features_base(&p.genres, &p.content_type, p.year)
}

// ---------------------------------------------------------------------------
// Taste profile
// ---------------------------------------------------------------------------

/// A liked or disliked title with its signed weight, in ten-thousandths
/// (positive when liked, negative when disliked).
#[derive(Debug, Clone)]
pub struct ScoredSeed {
    pub anime: AnimeMetadata,
    pub weight: i64,
}

/// A seed title paired with the signed strength of its seed.
pub fn scored_seed(seed: &RecommendationSeed, anime: AnimeMetadata, liked: bool) -> (r: ScoredSeed)
    ensures
        r.anime == anime,
        r.weight == (if liked { seed_weight_spec(*seed) } else { -seed_weight_spec(*seed) }),
{
    let w = seed_weight(seed);
    ScoredSeed { anime, weight: if liked { w } else { -w } }
}

/// The number of times `f` occurs in `fs`.
pub open spec fn count_in(fs: Seq<Seq<char>>, f: Seq<char>) -> int
    decreases fs.len(),
{
    if fs.len() == 0 {
        0
    } else {
        count_in(fs.drop_last(), f) + if fs.last() == f { 1int } else { 0int }
    }
}

/// The profile weight of a feature: the sum, over the seeds, of the seed's weight for
/// each time the feature occurs among the seed's features.
pub open spec fn profile_weight(seeds: Seq<ScoredSeed>, f: Seq<char>) -> int
    decreases seeds.len(),
{
    if seeds.len() == 0 {
        0
    } else {
        profile_weight(seeds.drop_last(), f) + seeds.last().weight * count_in(
            metadata_features(seeds.last().anime),
            f,
        )
    }
}

/// The sum of the years of the liked seeds that have a year.
pub open spec fn liked_year_sum(seeds: Seq<ScoredSeed>) -> int
    decreases seeds.len(),
{
    if seeds.len() == 0 {
        0
    } else {
        liked_year_sum(seeds.drop_last()) + if seeds.last().weight > 0
            && seeds.last().anime.year is Some {
            seeds.last().anime.year->0 as int
        } else {
            0
        }
    }
}

/// The number of liked seeds that have a year.
pub open spec fn liked_year_count(seeds: Seq<ScoredSeed>) -> int
    decreases seeds.len(),
{
    if seeds.len() == 0 {
        0
    } else {
        liked_year_count(seeds.drop_last()) + if seeds.last().weight > 0
            && seeds.last().anime.year is Some {
            1int
        } else {
            0int
        }
    }
}

/// The number of features of all seeds together.
pub open spec fn seed_feature_total(seeds: Seq<ScoredSeed>) -> int
    decreases seeds.len(),
{
    if seeds.len() == 0 {
        0
    } else {
        seed_feature_total(seeds.drop_last()) + metadata_features(seeds.last().anime).len()
    }
}

/// The most features that the seeds of one request may have together, 2^48: the
/// profile's weights are 64-bit sums sized for it. Every feature comes from a label, a
/// type or a year that a seed title holds in memory, so no machine holds seeds with more.
pub const MAX_SEED_FEATURES: u64 = 281474976710656;

/// Seeds whose weights are seed strengths and whose features fit the profile's sums.
pub open spec fn seeds_fit(seeds: Seq<ScoredSeed>) -> bool {
    &&& forall|i: int| 0 <= i < seeds.len() ==> -30000 <= #[trigger] seeds[i].weight <= 30000
    &&& seed_feature_total(seeds) <= MAX_SEED_FEATURES
}

/// A taste profile: weighted features, and the sum and count of the liked years, built
/// from the seeds that `seeds` records.
pub struct Profile {
    pub entries: Vec<(String, i64)>,
    pub year_sum: i128,
    pub year_count: i64,
    pub seeds: Ghost<Seq<ScoredSeed>>,
}

/// The weight that the entries give a feature: the sum of the entries with that key.
pub open spec fn entries_weight(es: Seq<(String, i64)>, f: Seq<char>) -> int
    decreases es.len(),
{
    if es.len() == 0 {
        0
    } else {
        entries_weight(es.drop_last(), f) + if es.last().0@ == f { es.last().1 as int } else { 0 }
    }
}

/// Whether some entry has the key `f`.
pub open spec fn has_key(es: Seq<(String, i64)>, f: Seq<char>) -> bool {
    exists|k: int| 0 <= k < es.len() && (#[trigger] es[k]).0@ == f
}

/// No two entries have the same key.
pub open spec fn keys_distinct(es: Seq<(String, i64)>) -> bool {
    forall|i: int, j: int| 0 <= i < j < es.len() ==> (#[trigger] es[i]).0@ != (#[trigger] es[j]).0@
}

/// Whether some seed has the feature `f`.
pub open spec fn seeds_have(seeds: Seq<ScoredSeed>, f: Seq<char>) -> bool {
    exists|i: int| 0 <= i < seeds.len() && metadata_features((#[trigger] seeds[i]).anime).contains(f)
}

/// The profile of `seeds`: one entry per feature that some seed has and no other, each
/// holding the feature's profile weight, and the liked-year sum and count.
pub open spec fn profile_of(p: Profile, seeds: Seq<ScoredSeed>) -> bool {
    &&& forall|f: Seq<char>| #[trigger] entries_weight(p.entries@, f) == profile_weight(seeds, f)
    &&& keys_distinct(p.entries@)
    &&& forall|f: Seq<char>|
        #![trigger has_key(p.entries@, f)]
        #![trigger seeds_have(seeds, f)]
        has_key(p.entries@, f) <==> seeds_have(seeds, f)
    &&& p.year_sum == liked_year_sum(seeds)
    &&& p.year_count == liked_year_count(seeds)
}

proof fn lemma_entries_push(es: Seq<(String, i64)>, e: (String, i64), f: Seq<char>)
    ensures
        entries_weight(es.push(e), f) == entries_weight(es, f) + if e.0@ == f { e.1 as int } else { 0 },
{
    assert(es.push(e).drop_last() =~= es);
}

proof fn lemma_entries_update(es: Seq<(String, i64)>, p: int, e: (String, i64), f: Seq<char>)
    requires
        0 <= p < es.len(),
        e.0@ == es[p].0@,
    ensures
        entries_weight(es.update(p, e), f) == entries_weight(es, f) + if e.0@ == f {
            e.1 - es[p].1
        } else {
            0
        },
    decreases es.len(),
{
    let u = es.update(p, e);
    if p == es.len() - 1 {
        assert(u.drop_last() =~= es.drop_last());
    } else {
        lemma_entries_update(es.drop_last(), p, e, f);
        assert(u.drop_last() =~= es.drop_last().update(p, e));
    }
}

/// With distinct keys, the weight of a key is its entry, and the weight of a missing
/// key is zero.
proof fn lemma_entries_lookup(es: Seq<(String, i64)>, f: Seq<char>)
    requires
        keys_distinct(es),
    ensures
        !has_key(es, f) ==> entries_weight(es, f) == 0,
        forall|k: int| 0 <= k < es.len() && (#[trigger] es[k]).0@ == f ==> entries_weight(es, f) == es[k].1,
    decreases es.len(),
{
    if es.len() > 0 {
        let init = es.drop_last();
        assert forall|i: int, j: int| 0 <= i < j < init.len() implies (#[trigger] init[i]).0@ != (#[trigger] init[j]).0@ by {
            assert(init[i] == es[i] && init[j] == es[j]);
        }
        lemma_entries_lookup(init, f);
        if !has_key(es, f) {
            if has_key(init, f) {
                let k = choose|k: int| 0 <= k < init.len() && (#[trigger] init[k]).0@ == f;
                assert(es[k] == init[k]);
            }
            assert(es[es.len() - 1] == es.last());
        }
        assert forall|k: int| 0 <= k < es.len() && (#[trigger] es[k]).0@ == f implies entries_weight(es, f) == es[k].1 by {
            if k < init.len() {
                assert(init[k] == es[k]);
                assert(es.last() == es[es.len() - 1]);
            } else {
                if has_key(init, f) {
                    let m = choose|m: int| 0 <= m < init.len() && (#[trigger] init[m]).0@ == f;
                    assert(es[m] == init[m]);
                }
            }
        }
    }
}

proof fn lemma_count_push(fs: Seq<Seq<char>>, g: Seq<char>, f: Seq<char>)
    ensures
        count_in(fs.push(g), f) == count_in(fs, f) + if g == f { 1int } else { 0int },
{
    assert(fs.push(g).drop_last() =~= fs);
}

/// Adds `w` to the weight of feature `f`, adding an entry for it when it has none.
fn add_weight(entries: &mut Vec<(String, i64)>, f: &String, w: i64)
    requires
        keys_distinct(old(entries)@),
        i64::MIN <= entries_weight(old(entries)@, f@) + w <= i64::MAX,
    ensures
        forall|g: Seq<char>| #[trigger] entries_weight(final(entries)@, g) == entries_weight(
            old(entries)@,
            g,
        ) + if g == f@ { w as int } else { 0 },
        keys_distinct(final(entries)@),
        forall|g: Seq<char>| #[trigger] has_key(final(entries)@, g) <==> has_key(old(entries)@, g)
            || g == f@,
{
    let mut p: usize = 0;
    while p < entries.len()
        invariant
            p <= entries@.len(),
            entries@ == old(entries)@,
            keys_distinct(entries@),
            i64::MIN <= entries_weight(entries@, f@) + w <= i64::MAX,
            forall|k: int| 0 <= k < p ==> (#[trigger] entries@[k]).0@ != f@,
        decreases entries.len() - p,
    {
        if entries[p].0 == *f {
            let key = entries[p].0.clone();
            let current = entries[p].1;
            let ghost before = entries@;
            proof {
                lemma_entries_lookup(before, f@);
                assert(before[p as int].0@ == f@);
            }
            entries.set(p, (key, current + w));
            proof {
                assert forall|g: Seq<char>| #[trigger] entries_weight(entries@, g)
                    == entries_weight(before, g) + if g == f@ { w as int } else { 0 } by {
                    lemma_entries_update(before, p as int, (key, (current + w) as i64), g);
                }
                assert forall|i: int, j: int| 0 <= i < j < entries@.len() implies (#[trigger] entries@[i]).0@
                    != (#[trigger] entries@[j]).0@ by {
                    assert(entries@[i].0@ == before[i].0@ && entries@[j].0@ == before[j].0@);
                }
                assert forall|g: Seq<char>| #[trigger] has_key(entries@, g) <==> has_key(before, g)
                    || g == f@ by {
                    if has_key(entries@, g) {
                        let k = choose|k: int| 0 <= k < entries@.len() && (#[trigger] entries@[k]).0@ == g;
                        assert(entries@[k].0@ == before[k].0@);
                    }
                    if has_key(before, g) {
                        let k = choose|k: int| 0 <= k < before.len() && (#[trigger] before[k]).0@ == g;
                        assert(entries@[k].0@ == before[k].0@);
                    }
                    if g == f@ {
                        assert(entries@[p as int].0@ == g);
                    }
                }
            }
            return;
        }
        p = p + 1;
    }
    let ghost before = entries@;
    proof {
        lemma_entries_lookup(before, f@);
        if has_key(before, f@) {
            let k = choose|k: int| 0 <= k < before.len() && (#[trigger] before[k]).0@ == f@;
        }
    }
    entries.push((f.clone(), w));
    proof {
        assert(entries@ == before.push(entries@.last()));
        assert forall|g: Seq<char>| #[trigger] entries_weight(entries@, g) == entries_weight(
            before,
            g,
        ) + if g == f@ { w as int } else { 0 } by {
            lemma_entries_push(before, entries@.last(), g);
        }
        assert forall|i: int, j: int| 0 <= i < j < entries@.len() implies (#[trigger] entries@[i]).0@
            != (#[trigger] entries@[j]).0@ by {
            assert(entries@[i] == before[i]);
            if j < before.len() {
                assert(entries@[j] == before[j]);
            }
        }
        assert forall|g: Seq<char>| #[trigger] has_key(entries@, g) <==> has_key(before, g)
            || g == f@ by {
            if has_key(entries@, g) {
                let k = choose|k: int| 0 <= k < entries@.len() && (#[trigger] entries@[k]).0@ == g;
                if k < before.len() {
                    assert(entries@[k] == before[k]);
                }
            }
            if has_key(before, g) {
                let k = choose|k: int| 0 <= k < before.len() && (#[trigger] before[k]).0@ == g;
                assert(entries@[k] == before[k]);
            }
            if g == f@ {
                assert(entries@[before.len() as int].0@ == g);
            }
        }
    }
}

proof fn lemma_feature_total_push(seeds: Seq<ScoredSeed>, s: ScoredSeed)
    ensures
        seed_feature_total(seeds.push(s)) == seed_feature_total(seeds) + metadata_features(
            s.anime,
        ).len(),
        liked_year_sum(seeds.push(s)) == liked_year_sum(seeds) + if s.weight > 0
            && s.anime.year is Some {
            s.anime.year->0 as int
        } else {
            0
        },
        liked_year_count(seeds.push(s)) == liked_year_count(seeds) + if s.weight > 0
            && s.anime.year is Some {
            1int
        } else {
            0int
        },
        forall|f: Seq<char>| #[trigger] profile_weight(seeds.push(s), f) == profile_weight(seeds, f)
            + s.weight * count_in(metadata_features(s.anime), f),
        forall|f: Seq<char>| #[trigger] seeds_have(seeds.push(s), f) <==> seeds_have(seeds, f)
            || metadata_features(s.anime).contains(f),
{
    let t = seeds.push(s);
    assert(t.drop_last() =~= seeds);
    assert forall|f: Seq<char>| #[trigger] seeds_have(t, f) <==> seeds_have(seeds, f)
        || metadata_features(s.anime).contains(f) by {
        if seeds_have(t, f) {
            let i = choose|i: int| 0 <= i < t.len() && metadata_features((#[trigger] t[i]).anime).contains(f);
            if i < seeds.len() {
                assert(t[i] == seeds[i]);
            }
        }
        if seeds_have(seeds, f) {
            let i = choose|i: int| 0 <= i < seeds.len() && metadata_features((#[trigger] seeds[i]).anime).contains(f);
            assert(t[i] == seeds[i]);
        }
        if metadata_features(s.anime).contains(f) {
            assert(t[seeds.len() as int] == s);
        }
    }
}

proof fn lemma_feature_total_prefix(seeds: Seq<ScoredSeed>, i: int)
    requires
        0 <= i <= seeds.len(),
    ensures
        seed_feature_total(seeds.take(i)) <= seed_feature_total(seeds),
    decreases seeds.len() - i,
{
    if i < seeds.len() {
        lemma_feature_total_prefix(seeds, i + 1);
        assert(seeds.take(i + 1).drop_last() =~= seeds.take(i));
    } else {
        assert(seeds.take(i) =~= seeds);
    }
}

proof fn lemma_metadata_features_len(a: AnimeMetadata)
    ensures
        metadata_features(a).len() == a.genres@.len() + 1 + (if a.year is Some { 1int } else { 0int }) + a.tags@.len(),
{
}

/// Every seed has at least one feature, its type.
proof fn lemma_seed_count(seeds: Seq<ScoredSeed>)
    ensures
        seeds.len() <= seed_feature_total(seeds),
    decreases seeds.len(),
{
    if seeds.len() > 0 {
        lemma_seed_count(seeds.drop_last());
        lemma_metadata_features_len(seeds.last().anime);
    }
}

proof fn lemma_year_count_bound(seeds: Seq<ScoredSeed>)
    ensures
        0 <= liked_year_count(seeds) <= seeds.len(),
        -2147483648 * liked_year_count(seeds) <= liked_year_sum(seeds) <= 2147483647
            * liked_year_count(seeds),
    decreases seeds.len(),
{
    if seeds.len() > 0 {
        lemma_year_count_bound(seeds.drop_last());
    }
}

/// Adds the seeds of `seeds` to a profile that holds `done`.
fn add_seeds(profile: &mut Profile, seeds: &Vec<ScoredSeed>, Ghost(done): Ghost<Seq<ScoredSeed>>)
    requires
        profile_of(*old(profile), done),
        seeds_fit(done + seeds@),
    ensures
        profile_of(*final(profile), done + seeds@),
{
    let ghost all = done + seeds@;
    proof {
        lemma_seed_count(all);
    }
    for i in 0..seeds.len()
        invariant
            all == done + seeds@,
            seeds_fit(all),
            all.len() <= MAX_SEED_FEATURES,
            profile_of(*profile, done + seeds@.take(i as int)),
    {
        let ghost prefix = done + seeds@.take(i as int);
        let seed = &seeds[i];
        proof {
            assert(done + seeds@.take(i + 1) =~= prefix.push(seeds@[i as int]));
            assert(prefix =~= all.take(prefix.len() as int));
            lemma_feature_total_prefix(all, (prefix.len() + 1) as int);
            assert(all.take((prefix.len() + 1) as int) =~= prefix.push(seeds@[i as int]));
            lemma_feature_total_push(prefix, seeds@[i as int]);
            assert(all[prefix.len() as int] == seeds@[i as int]);
            assert(-30000 <= seed.weight <= 30000);
            assert forall|k: int| 0 <= k < prefix.len() implies -30000 <= #[trigger] prefix[k].weight <= 30000 by {
                assert(prefix[k] == all[k]);
            }
        }
        let features = features_of_metadata(&seed.anime);
        let ghost fs = views(features@);
        let ghost start_entries = profile.entries@;
        let ghost tp = seed_feature_total(prefix);
        proof {
            assert forall|g: Seq<char>| -30000 * tp <= #[trigger] entries_weight(start_entries, g)
                <= 30000 * tp by {
                lemma_profile_weight_bound(prefix, g);
            }
        }
        let w = seed.weight;
        for j in 0..features.len()
            invariant
                -30000 <= w <= 30000,
                w == seed.weight,
                fs == views(features@),
                fs == metadata_features(seed.anime),
                tp == seed_feature_total(prefix),
                tp + fs.len() <= MAX_SEED_FEATURES,
                profile.year_sum == liked_year_sum(prefix),
                profile.year_count == liked_year_count(prefix),
                keys_distinct(profile.entries@),
                forall|g: Seq<char>| -30000 * tp <= #[trigger] entries_weight(start_entries, g) <= 30000 * tp,
                forall|g: Seq<char>| #[trigger] entries_weight(profile.entries@, g)
                    == entries_weight(start_entries, g) + w * count_in(fs.take(j as int), g),
                forall|g: Seq<char>| #[trigger] has_key(profile.entries@, g) <==> has_key(
                    start_entries,
                    g,
                ) || fs.take(j as int).contains(g),
        {
            let ghost before = profile.entries@;
            proof {
                let g = features@[j as int]@;
                let c = count_in(fs.take(j as int), g);
                lemma_count_bound(fs.take(j as int), g);
                assert(-30000 * j <= w * c <= 30000 * j) by (nonlinear_arith)
                    requires
                        -30000 <= w <= 30000,
                        0 <= c <= j,
                ;
                assert(-30000 * tp <= entries_weight(start_entries, g) <= 30000 * tp);
                assert(30000 * (tp + j + 1) <= 30000 * MAX_SEED_FEATURES) by (nonlinear_arith)
                    requires
                        tp + j + 1 <= MAX_SEED_FEATURES,
                ;
            }
            add_weight(&mut profile.entries, &features[j], w);
            proof {
                assert(fs.take(j + 1) =~= fs.take(j as int).push(fs[j as int]));
                assert(fs[j as int] == features@[j as int]@);
                assert forall|g: Seq<char>| #[trigger] entries_weight(profile.entries@, g)
                    == entries_weight(start_entries, g) + w * count_in(fs.take(j + 1), g) by {
                    lemma_count_push(fs.take(j as int), fs[j as int], g);
                    assert(entries_weight(profile.entries@, g) == entries_weight(before, g) + if g
                        == features@[j as int]@ { w as int } else { 0 });
                    assert(w * count_in(fs.take(j + 1), g) == w * count_in(fs.take(j as int), g)
                        + w * (if g == fs[j as int] { 1int } else { 0int })) by (nonlinear_arith)
                        requires
                            count_in(fs.take(j + 1), g) == count_in(fs.take(j as int), g) + (if g
                                == fs[j as int] { 1int } else { 0int }),
                    ;
                }
                assert forall|g: Seq<char>| #[trigger] has_key(profile.entries@, g) <==> has_key(
                    start_entries,
                    g,
                ) || fs.take(j + 1).contains(g) by {
                    if fs.take(j + 1).contains(g) && !fs.take(j as int).contains(g) {
                        let k = choose|k: int| 0 <= k < j + 1 && #[trigger] fs.take(j + 1)[k] == g;
                        if k < j {
                            assert(fs.take(j as int)[k] == g);
                        }
                    }
                    if fs.take(j as int).contains(g) {
                        let k = choose|k: int| 0 <= k < j && #[trigger] fs.take(j as int)[k] == g;
                        assert(fs.take(j + 1)[k] == g);
                    }
                    if g == fs[j as int] {
                        assert(fs.take(j + 1)[j as int] == g);
                    }
                }
            }
        }
        proof {
            assert(fs.take(fs.len() as int) =~= fs);
        }
        proof {
            let next = prefix.push(seeds@[i as int]);
            lemma_feature_total_push(prefix, seeds@[i as int]);
            lemma_year_count_bound(next);
            assert(prefix.len() + 1 <= all.len());
            assert(liked_year_count(next) <= MAX_SEED_FEATURES);
            assert(liked_year_sum(next) <= 2147483647 * 281474976710656) by (nonlinear_arith)
                requires
                    liked_year_sum(next) <= 2147483647 * liked_year_count(next),
                    liked_year_count(next) <= 281474976710656,
            ;
            assert(liked_year_sum(next) >= -2147483648 * 281474976710656) by (nonlinear_arith)
                requires
                    liked_year_sum(next) >= -2147483648 * liked_year_count(next),
                    liked_year_count(next) <= 281474976710656,
                    liked_year_count(next) >= 0,
            ;
        }
        if w > 0 {
            if let Some(y) = seed.anime.year {
                profile.year_sum = profile.year_sum + y as i128;
                profile.year_count = profile.year_count + 1;
            }
        }
        proof {
            let next = prefix.push(seeds@[i as int]);
            assert(done + seeds@.take(i + 1) =~= next);
            assert forall|g: Seq<char>| #[trigger] entries_weight(profile.entries@, g)
                == profile_weight(next, g) by {
                assert(entries_weight(start_entries, g) == profile_weight(prefix, g));
            }
            assert forall|g: Seq<char>| #[trigger] has_key(profile.entries@, g) <==> seeds_have(next, g) by {
                assert(has_key(start_entries, g) <==> seeds_have(prefix, g));
            }
        }
    }
    assert(seeds@.take(seeds@.len() as int) =~= seeds@);
}

/// The taste profile of the liked and disliked seeds: an entry for each feature that
/// some seed has, weighted by the seeds that have it, and the liked years.
pub fn build_profile(liked: &Vec<ScoredSeed>, disliked: &Vec<ScoredSeed>) -> (p: Profile)
    requires
        seeds_fit(liked@ + disliked@),
    ensures
        profile_of(p, liked@ + disliked@),
        p.seeds@ == liked@ + disliked@,
{
    let mut profile = Profile { entries: Vec::new(), year_sum: 0, year_count: 0, seeds: Ghost(Seq::empty()) };
    proof {
        assert(liked@ =~= Seq::<ScoredSeed>::empty() + liked@);
        assert((liked@ + disliked@).take(liked@.len() as int) =~= liked@);
        lemma_feature_total_prefix(liked@ + disliked@, liked@.len() as int);
        assert forall|i: int| 0 <= i < liked@.len() implies -30000 <= #[trigger] liked@[i].weight
            <= 30000 by {
            assert((liked@ + disliked@)[i] == liked@[i]);
        }
        assert forall|f: Seq<char>| #[trigger] has_key(profile.entries@, f) <==> seeds_have(Seq::<ScoredSeed>::empty(), f) by {}
    }
    add_seeds(&mut profile, liked, Ghost(Seq::empty()));
    add_seeds(&mut profile, disliked, Ghost(liked@));
    profile.seeds = Ghost(liked@ + disliked@);
    profile
}

// ---------------------------------------------------------------------------
// Fixed-point arithmetic
// ---------------------------------------------------------------------------

/// `x / d` rounded to the nearest integer, halves away from zero (`f64::round`).
pub open spec fn round_div(x: int, d: int) -> int {
    if x >= 0 {
        (2 * x + d) / (2 * d)
    } else {
        -((-2 * x + d) / (2 * d))
    }
}

/// `x / d` rounded to the nearest integer, halves away from zero.
fn round_div_exec(x: i128, d: i128) -> (r: i128)
    requires
        0 < d <= 0x1_0000_0000_0000_0000,
        -0x1000_0000_0000_0000_0000_0000_0000_0000 <= x <= 0x1000_0000_0000_0000_0000_0000_0000_0000,
    ensures
        r == round_div(x as int, d as int),
{
    if x >= 0 {
        (2 * x + d) / (2 * d)
    } else {
        let num: i128 = 2 * (0 - x) + d;
        let q: i128 = num / (2 * d);
        assert(q >= 0) by (nonlinear_arith)
            requires
                num >= 0,
                d > 0,
                q as int == num as int / (2 * d as int),
        ;
        -q
    }
}

proof fn lemma_round_div_bound(x: int, d: int, b: int)
    requires
        0 < d,
        -(b * d) <= x <= b * d,
        0 <= b,
    ensures
        -b - 1 <= round_div(x, d) <= b + 1,
{
    if x >= 0 {
        assert((2 * x + d) / (2 * d) <= b + 1) by (nonlinear_arith)
            requires
                0 <= x <= b * d,
                0 < d,
                0 <= b,
        {
            assert(2 * x + d <= (b + 1) * (2 * d));
            vstd::arithmetic::div_mod::lemma_div_is_ordered(2 * x + d, (b + 1) * (2 * d), 2 * d);
            vstd::arithmetic::div_mod::lemma_div_by_multiple(b + 1, 2 * d);
        }
        assert((2 * x + d) / (2 * d) >= 0) by (nonlinear_arith)
            requires
                0 <= x,
                0 < d,
        ;
    } else {
        assert((-2 * x + d) / (2 * d) <= b + 1) by (nonlinear_arith)
            requires
                0 <= -x <= b * d,
                0 < d,
                0 <= b,
        {
            assert(-2 * x + d <= (b + 1) * (2 * d));
            vstd::arithmetic::div_mod::lemma_div_is_ordered(-2 * x + d, (b + 1) * (2 * d), 2 * d);
            vstd::arithmetic::div_mod::lemma_div_by_multiple(b + 1, 2 * d);
        }
        assert((-2 * x + d) / (2 * d) >= 0) by (nonlinear_arith)
            requires
                0 <= -x,
                0 < d,
        ;
    }
}

/// The integer square root: the largest `s` with `s * s <= x`.
pub open spec fn sqrt_floor(x: nat) -> nat {
    choose|s: nat| #[trigger] is_sqrt_floor(x, s)
}

/// Whether `s` is the integer square root of `x`.
pub open spec fn is_sqrt_floor(x: nat, s: nat) -> bool {
    s * s <= x && x < (s + 1) * (s + 1)
}

proof fn lemma_sqrt_floor_unique(x: nat, s: nat)
    requires
        s * s <= x < (s + 1) * (s + 1),
    ensures
        sqrt_floor(x) == s,
{
    assert(is_sqrt_floor(x, s));
    let t = sqrt_floor(x);
    assert(t * t <= x && x < (t + 1) * (t + 1));
    if t < s {
        assert((t + 1) * (t + 1) <= s * s) by (nonlinear_arith)
            requires
                t + 1 <= s,
        ;
    } else if s < t {
        assert((s + 1) * (s + 1) <= t * t) by (nonlinear_arith)
            requires
                s + 1 <= t,
        ;
    }
}

/// The integer square root of `x`.
fn isqrt(x: u128) -> (s: u128)
    requires
        x <= 0xFFFF_FFFF_FFFF_FFFF * 10000000000000000,
    ensures
        s == sqrt_floor(x as nat),
        is_sqrt_floor(x as nat, s as nat),
        s < 0x800_0000_0000_0000,
{
    let mut lo: u128 = 0;
    let mut hi: u128 = 0x800_0000_0000_0000;
    assert(x < hi * hi) by (nonlinear_arith)
        requires
            x <= 0xFFFF_FFFF_FFFF_FFFF * 10000000000000000,
            hi == 0x800_0000_0000_0000,
    ;
    while hi - lo > 1
        invariant
            lo < hi <= 0x800_0000_0000_0000,
            lo * lo <= x,
            x < hi * hi,
        decreases hi - lo,
    {
        let mid = lo + (hi - lo) / 2;
        assert(mid * mid <= 0x800_0000_0000_0000 * 0x800_0000_0000_0000) by (nonlinear_arith)
            requires
                mid <= 0x800_0000_0000_0000,
        ;
        if mid * mid <= x {
            lo = mid;
        } else {
            hi = mid;
        }
    }
    proof {
        assert(hi == lo + 1);
        lemma_sqrt_floor_unique(x as nat, lo as nat);
    }
    lo
}

// ---------------------------------------------------------------------------
// Scoring
// ---------------------------------------------------------------------------

/// The sum of the profile weights of the features (counted with repeats).
pub open spec fn affinity_spec(fs: Seq<Seq<char>>, seeds: Seq<ScoredSeed>) -> int
    decreases fs.len(),
{
    if fs.len() == 0 {
        0
    } else {
        affinity_spec(fs.drop_last(), seeds) + profile_weight(seeds, fs.last())
    }
}

/// Era proximity in hundred-millionths: one minus the distance between the candidate's
/// year and the mean liked year, over twenty, at least zero; a quarter when either year
/// is unknown.
pub open spec fn recency_spec(year_sum: int, year_count: int, year: Option<i32>) -> int {
    match year {
        Some(y) => if year_count > 0 {
            let gap = y * year_count - year_sum;
            let num = 20 * year_count - (if gap >= 0 { gap } else { -gap });
            if num <= 0 {
                0
            } else {
                round_div(num * 100000000, 20 * year_count)
            }
        } else {
            25000000
        },
        None => 25000000,
    }
}

/// The recommendation score in ten-thousandths: 0.72 times the affinity over the square
/// root of the number of candidate features, plus 0.18 times the quality (score / 10),
/// plus 0.1 times the era proximity, rounded. The affinity term is carried in
/// hundred-millionths with the square root floored at that precision.
pub open spec fn score_spec(affinity: int, n: nat, tenths: int, recency: int) -> int {
    let norm = round_div(affinity * 1000000000000, sqrt_floor(n * 10000000000000000) as int);
    round_div(72 * norm + 18 * tenths * 1000000 + 10 * recency, 1000000)
}

proof fn lemma_sqrt_exists(x: nat)
    ensures
        exists|s: nat| #[trigger] is_sqrt_floor(x, s),
    decreases x,
{
    if x == 0 {
        assert((0nat + 1) * (0nat + 1) == 1) by (nonlinear_arith);
        assert(is_sqrt_floor(0, 0));
    } else {
        lemma_sqrt_exists((x - 1) as nat);
        let s = choose|s: nat| #[trigger] is_sqrt_floor((x - 1) as nat, s);
        if (s + 1) * (s + 1) <= x {
            assert(x < (s + 2) * (s + 2)) by (nonlinear_arith)
                requires
                    (s + 1) * (s + 1) <= x,
                    x - 1 < (s + 1) * (s + 1),
            ;
            assert(is_sqrt_floor(x, s + 1));
        } else {
            assert(is_sqrt_floor(x, s));
        }
    }
}

proof fn lemma_round_div_monotone(x1: int, x2: int, d: int)
    requires
        x1 <= x2,
        d > 0,
    ensures
        round_div(x1, d) <= round_div(x2, d),
{
    if x1 >= 0 {
        vstd::arithmetic::div_mod::lemma_div_is_ordered(2 * x1 + d, 2 * x2 + d, 2 * d);
    } else if x2 < 0 {
        vstd::arithmetic::div_mod::lemma_div_is_ordered(-2 * x2 + d, -2 * x1 + d, 2 * d);
    } else {
        assert((-2 * x1 + d) / (2 * d) >= 0) by (nonlinear_arith)
            requires
                -2 * x1 + d >= 0,
                d > 0,
        ;
        assert((2 * x2 + d) / (2 * d) >= 0) by (nonlinear_arith)
            requires
                2 * x2 + d >= 0,
                d > 0,
        ;
    }
}

/// Era proximity depends only on how far the candidate year lies from the mean liked year
/// `year_sum / year_count`, on either side: it is full at the mean, never rises with the
/// distance, is zero at twenty years or more, and lies between zero and one (in
/// hundred-millionths). Without a liked year or a candidate year it is a quarter.
pub proof fn lemma_era_proximity(year_sum: int, year_count: int, y1: i32, y2: i32)
    ensures
        year_count > 0 ==> 0 <= recency_spec(year_sum, year_count, Some(y1)) <= 100000000,
        year_count > 0 && y1 * year_count == year_sum ==> recency_spec(year_sum, year_count, Some(y1))
            == 100000000,
        year_count > 0 && (y1 * year_count - year_sum >= 20 * year_count || year_sum - y1 * year_count
            >= 20 * year_count) ==> recency_spec(year_sum, year_count, Some(y1)) == 0,
        year_count > 0 && abs_int(y1 * year_count - year_sum) <= abs_int(y2 * year_count - year_sum)
            ==> recency_spec(year_sum, year_count, Some(y1)) >= recency_spec(year_sum, year_count, Some(y2)),
        year_count > 0 && abs_int(y1 * year_count - year_sum) == abs_int(y2 * year_count - year_sum)
            ==> recency_spec(year_sum, year_count, Some(y1)) == recency_spec(year_sum, year_count, Some(y2)),
        year_count <= 0 ==> recency_spec(year_sum, year_count, Some(y1)) == 25000000,
        recency_spec(year_sum, year_count, None) == 25000000,
{
    if year_count > 0 {
        let c = year_count;
        let d1 = abs_int(y1 * c - year_sum);
        let d2 = abs_int(y2 * c - year_sum);
        let n1 = 20 * c - d1;
        let n2 = 20 * c - d2;
        if n1 > 0 {
            lemma_round_div_bound(n1 * 100000000, 20 * c, 100000000);
            assert(0 <= n1 * 100000000 <= 100000000 * (20 * c)) by (nonlinear_arith)
                requires
                    0 < n1 <= 20 * c,
            ;
            assert(round_div(n1 * 100000000, 20 * c) >= 0) by (nonlinear_arith)
                requires
                    n1 > 0,
                    c > 0,
            {
                assert(2 * (n1 * 100000000) + 20 * c >= 0);
            }
            assert(round_div(n1 * 100000000, 20 * c) <= 100000000) by (nonlinear_arith)
                requires
                    0 < n1 <= 20 * c,
                    c > 0,
            {
                assert(2 * (n1 * 100000000) + 20 * c < (100000000 + 1) * (2 * (20 * c)));
                vstd::arithmetic::div_mod::lemma_div_is_ordered(
                    2 * (n1 * 100000000) + 20 * c,
                    (100000000 + 1) * (2 * (20 * c)) - 1,
                    2 * (20 * c),
                );
                vstd::arithmetic::div_mod::lemma_fundamental_div_mod(
                    (100000000 + 1) * (2 * (20 * c)) - 1,
                    2 * (20 * c),
                );
            }
        }
        if d1 == 0 {
            assert(n1 * 100000000 == 100000000 * (20 * c)) by (nonlinear_arith)
                requires
                    n1 == 20 * c,
            ;
            assert(round_div(n1 * 100000000, 20 * c) == 100000000) by (nonlinear_arith)
                requires
                    n1 * 100000000 == 100000000 * (20 * c),
                    c > 0,
            {
                vstd::arithmetic::div_mod::lemma_div_multiples_vanish_fancy(100000000, 20 * c, 2 * (20 * c));
                assert(2 * (n1 * 100000000) + 20 * c == (2 * (20 * c)) * 100000000 + 20 * c);
            }
        }
        if d1 <= d2 && n2 > 0 {
            assert(n2 * 100000000 <= n1 * 100000000) by (nonlinear_arith)
                requires
                    n2 <= n1,
            ;
            lemma_round_div_monotone(n2 * 100000000, n1 * 100000000, 20 * c);
        }
    }
}

/// The absolute value of `x`.
pub open spec fn abs_int(x: int) -> int {
    if x >= 0 {
        x
    } else {
        -x
    }
}

/// The score never falls when the affinity, the quality or the era proximity rises.
pub proof fn lemma_score_monotone(a1: int, a2: int, n: nat, t1: int, t2: int, r1: int, r2: int)
    requires
        a1 <= a2,
        t1 <= t2,
        r1 <= r2,
        n >= 1,
    ensures
        score_spec(a1, n, t1, r1) <= score_spec(a2, n, t2, r2),
{
    let x = n * 10000000000000000;
    lemma_sqrt_exists(x);
    let sq = sqrt_floor(x);
    assert(is_sqrt_floor(x, sq));
    lemma_sqrt_at_least(n, sq);
    lemma_round_div_monotone(a1 * 1000000000000, a2 * 1000000000000, sq as int);
    let n1 = round_div(a1 * 1000000000000, sq as int);
    let n2 = round_div(a2 * 1000000000000, sq as int);
    lemma_round_div_monotone(
        72 * n1 + 18 * t1 * 1000000 + 10 * r1,
        72 * n2 + 18 * t2 * 1000000 + 10 * r2,
        1000000,
    );
}

/// A better community score never lowers the recommendation score: two candidates that
/// differ only in their community score rank in the order of those scores (an unknown
/// score counts as zero).
pub proof fn lemma_better_score_ranks_higher(c1: AnimePreview, c2: AnimePreview, seeds: Seq<ScoredSeed>)
    requires
        c2 == (AnimePreview { score: c2.score, ..c1 }),
        tenths_or_zero(c1) <= tenths_or_zero(c2),
    ensures
        candidate_score(c1, seeds) <= candidate_score(c2, seeds),
{
    let fs = preview_features(c1);
    assert(preview_features(c2) == fs);
    let a = affinity_spec(fs, seeds);
    let r = recency_spec(liked_year_sum(seeds), liked_year_count(seeds), c1.year);
    lemma_score_monotone(a, a, fs.len(), tenths_or_zero(c1), tenths_or_zero(c2), r, r);
}

/// The candidate's community score in tenths, zero when unknown.
pub open spec fn tenths_or_zero(p: AnimePreview) -> int {
    match p.score {
        Some(t) => t as int,
        None => 0,
    }
}

/// The recommendation score of a candidate against the seeds.
pub open spec fn candidate_score(p: AnimePreview, seeds: Seq<ScoredSeed>) -> int {
    let fs = preview_features(p);
    score_spec(
        affinity_spec(fs, seeds),
        fs.len(),
        tenths_or_zero(p),
        recency_spec(liked_year_sum(seeds), liked_year_count(seeds), p.year),
    )
}

proof fn lemma_count_bound(fs: Seq<Seq<char>>, f: Seq<char>)
    ensures
        0 <= count_in(fs, f) <= fs.len(),
    decreases fs.len(),
{
    if fs.len() > 0 {
        lemma_count_bound(fs.drop_last(), f);
    }
}

proof fn lemma_profile_weight_bound(seeds: Seq<ScoredSeed>, f: Seq<char>)
    requires
        forall|i: int| 0 <= i < seeds.len() ==> -30000 <= #[trigger] seeds[i].weight <= 30000,
    ensures
        -30000 * seed_feature_total(seeds) <= profile_weight(seeds, f) <= 30000
            * seed_feature_total(seeds),
        seed_feature_total(seeds) >= 0,
    decreases seeds.len(),
{
    if seeds.len() > 0 {
        let init = seeds.drop_last();
        assert forall|i: int| 0 <= i < init.len() implies -30000 <= #[trigger] init[i].weight
            <= 30000 by {
            assert(init[i] == seeds[i]);
        }
        lemma_profile_weight_bound(init, f);
        let last = seeds.last();
        assert(-30000 <= seeds[seeds.len() - 1].weight <= 30000);
        let fs = metadata_features(last.anime);
        lemma_count_bound(fs, f);
        let c = count_in(fs, f);
        let w = last.weight as int;
        assert(-30000 * fs.len() <= w * c <= 30000 * fs.len()) by (nonlinear_arith)
            requires
                -30000 <= w <= 30000,
                0 <= c <= fs.len(),
        ;
    }
}

/// The weight of a feature in a profile: its entry's weight, zero without an entry.
fn weight_of(profile: &Profile, f: &String, Ghost(seeds): Ghost<Seq<ScoredSeed>>) -> (r: i64)
    requires
        profile_of(*profile, seeds),
        seeds_fit(seeds),
    ensures
        r == profile_weight(seeds, f@),
        -30000 * MAX_SEED_FEATURES <= r <= 30000 * MAX_SEED_FEATURES,
{
    let es = &profile.entries;
    proof {
        lemma_entries_lookup(es@, f@);
        lemma_profile_weight_bound(seeds, f@);
        assert(30000 * seed_feature_total(seeds) <= 30000 * MAX_SEED_FEATURES);
    }
    for k in 0..es.len()
        invariant
            profile_of(*profile, seeds),
            seeds_fit(seeds),
            es == &profile.entries,
            forall|j: int| 0 <= j < k ==> (#[trigger] es@[j]).0@ != f@,
    {
        if es[k].0 == *f {
            proof {
                lemma_entries_lookup(es@, f@);
                lemma_profile_weight_bound(seeds, f@);
                assert(es@[k as int].0@ == f@);
            }
            return es[k].1;
        }
    }
    proof {
        lemma_entries_lookup(es@, f@);
    }
    0
}

/// The recency of a candidate year against a profile, in hundred-millionths.
fn recency_of(profile: &Profile, year: Option<i32>) -> (r: i128)
    requires
        0 <= profile.year_count <= MAX_SEED_FEATURES,
        -2147483648 * profile.year_count <= profile.year_sum <= 2147483647 * profile.year_count,
    ensures
        r == recency_spec(profile.year_sum as int, profile.year_count as int, year),
        0 <= r <= 100000000,
{
    match year {
        Some(y) => if profile.year_count > 0 {
            let c = profile.year_count as i128;
            let total = profile.year_sum as i128;
            assert(-2147483648 * c <= y * c <= 2147483647 * c) by (nonlinear_arith)
                requires
                    0 < c,
                    -2147483648 <= y <= 2147483647,
            ;
            let gap: i128 = (y as i128) * c - total;
            let dist: i128 = if gap >= 0 { gap } else { -gap };
            let num: i128 = 20 * c - dist;
            if num <= 0 {
                0
            } else {
                let r = round_div_exec(num * 100000000, 20 * c);
                proof {
                    lemma_round_div_bound(num * 100000000, 20 * c, 100000000);
                    assert(r >= 0) by (nonlinear_arith)
                        requires
                            r == (2 * (num * 100000000) + 20 * c) / (2 * (20 * c)),
                            num > 0,
                            c > 0,
                    ;
                    assert(r <= 100000000) by (nonlinear_arith)
                        requires
                            r == (2 * (num * 100000000) + 20 * c) / (2 * (20 * c)),
                            0 < num <= 20 * c,
                            c > 0,
                    {
                        assert(2 * (num * 100000000) + 20 * c < (100000000 + 1) * (2 * (20 * c)));
                        vstd::arithmetic::div_mod::lemma_div_is_ordered(
                            2 * (num * 100000000) + 20 * c,
                            (100000000 + 1) * (2 * (20 * c)) - 1,
                            2 * (20 * c),
                        );
                        vstd::arithmetic::div_mod::lemma_fundamental_div_mod(
                            (100000000 + 1) * (2 * (20 * c)) - 1,
                            2 * (20 * c),
                        );
                    }
                }
                r
            }
        } else {
            25000000
        },
        None => 25000000,
    }
}

/// The most that a profile weighs a feature, in ten-thousandths: a seed strength of at
/// most 3 for each of the at most 2^48 seed features.
pub open spec fn max_weight() -> int {
    30000 * MAX_SEED_FEATURES
}

/// The summed profile weight of a candidate's features.
fn affinity_of(features: &Vec<String>, profile: &Profile, Ghost(seeds): Ghost<Seq<ScoredSeed>>) -> (r: i128)
    requires
        profile_of(*profile, seeds),
        seeds_fit(seeds),
    ensures
        r == affinity_spec(views(features@), seeds),
        -(max_weight() * features@.len()) <= r <= max_weight() * features@.len(),
{
    let mut sum: i128 = 0;
    for j in 0..features.len()
        invariant
            profile_of(*profile, seeds),
            seeds_fit(seeds),
            sum == affinity_spec(views(features@).take(j as int), seeds),
            -(max_weight() * j) <= sum <= max_weight() * j,
    {
        let w = weight_of(profile, &features[j], Ghost(seeds));
        proof {
            let fs = views(features@);
            assert(fs.take(j + 1).drop_last() =~= fs.take(j as int));
            assert(fs.take(j + 1).last() == features@[j as int]@);
            assert(-(max_weight() * (j + 1)) <= sum + w <= max_weight() * (j + 1)
                && max_weight() * (j + 1) <= 8444249301319680000 * 0x1_0000_0000_0000_0000) by (nonlinear_arith)
                requires
                    max_weight() == 8444249301319680000,
                    -(max_weight() * j) <= sum <= max_weight() * j,
                    -max_weight() <= w <= max_weight(),
                    j + 1 <= 0x1_0000_0000_0000_0000,
            ;
        }
        sum = sum + w as i128;
    }
    assert(views(features@).take(features@.len() as int) =~= views(features@));
    sum
}

proof fn lemma_sqrt_at_least(n: nat, s: nat)
    requires
        n >= 1,
        is_sqrt_floor(n * 10000000000000000, s),
    ensures
        s >= 100000000,
{
    if s < 100000000 {
        assert((s + 1) * (s + 1) <= 100000000 * 100000000) by (nonlinear_arith)
            requires
                s + 1 <= 100000000,
        ;
        assert(100000000 * 100000000 <= n * 10000000000000000) by (nonlinear_arith)
            requires
                n >= 1,
        ;
    }
}

/// Rounding `u * m / d` splits into the whole quotient of `u / d` and the rounded rest.
proof fn lemma_round_div_split(u: int, d: int, m: int)
    requires
        u >= 0,
        d > 0,
        m >= 0,
    ensures
        round_div(u * m, d) == (u / d) * m + round_div((u % d) * m, d),
{
    let q = u / d;
    let r = u % d;
    vstd::arithmetic::div_mod::lemma_fundamental_div_mod(u, d);
    assert(0 <= r < d);
    assert(u * m == q * m * d + r * m && u * m >= 0 && r * m >= 0) by (nonlinear_arith)
        requires
            u == d * q + r,
            u >= 0,
            m >= 0,
            r >= 0,
    ;
    vstd::arithmetic::div_mod::lemma_hoist_over_denominator(2 * (r * m) + d, q * m, (2 * d) as nat);
    assert(2 * (u * m) + d == 2 * (r * m) + d + (q * m) * (2 * d)) by (nonlinear_arith)
        requires
            u * m == q * m * d + r * m,
    ;
}

/// The recommendation score of a candidate, in ten-thousandths.
fn score_value(
    features: &Vec<String>,
    tenths: u32,
    year: Option<i32>,
    profile: &Profile,
    Ghost(seeds): Ghost<Seq<ScoredSeed>>,
) -> (r: i128)
    requires
        profile_of(*profile, seeds),
        seeds_fit(seeds),
        1 <= features@.len(),
    ensures
        r == score_spec(
            affinity_spec(views(features@), seeds),
            features@.len(),
            tenths as int,
            recency_spec(liked_year_sum(seeds), liked_year_count(seeds), year),
        ),
{
    let a = affinity_of(features, profile, Ghost(seeds));
    let n = features.len() as u128;
    let ghost w = max_weight();
    proof {
        assert(n <= 0xFFFF_FFFF_FFFF_FFFF);
        assert(n * 10000000000000000 <= 0xFFFF_FFFF_FFFF_FFFF * 10000000000000000) by (nonlinear_arith)
            requires
                n <= 0xFFFF_FFFF_FFFF_FFFF,
        ;
        assert(w * n <= 8444249301319680000 * 0xFFFF_FFFF_FFFF_FFFF) by (nonlinear_arith)
            requires
                n <= 0xFFFF_FFFF_FFFF_FFFF,
                w == 8444249301319680000,
        ;
        assert(-(w * n) <= a <= w * n);
    }
    let sq = isqrt(n * 10000000000000000);
    proof {
        lemma_sqrt_at_least(n as nat, sq as nat);
    }
    let ua: u128 = if a >= 0 {
        a as u128
    } else {
        (0 - a) as u128
    };
    let q: u128 = ua / sq;
    let rem: u128 = ua % sq;
    proof {
        vstd::arithmetic::div_mod::lemma_fundamental_div_mod(ua as int, sq as int);
        assert(q * sq <= ua) by (nonlinear_arith)
            requires
                ua == sq * q + rem,
                rem >= 0,
        ;
        assert(ua <= w * n);
        assert(n * 10000000000000000 < 4 * (sq * sq)) by (nonlinear_arith)
            requires
                n * 10000000000000000 < (sq + 1) * (sq + 1),
                sq >= 1,
        ;
        assert(q * 10000000000000000 < 4 * w * sq) by (nonlinear_arith)
            requires
                q * sq <= w * n,
                n * 10000000000000000 < 4 * (sq * sq),
                sq >= 1,
                w > 0,
        {
            assert(q * sq * 10000000000000000 <= w * n * 10000000000000000);
            assert(w * n * 10000000000000000 < w * (4 * (sq * sq)));
            assert((q * 10000000000000000) * sq < (4 * w * sq) * sq);
        }
        assert(4 * w * sq < 4 * w * 0x800_0000_0000_0000) by (nonlinear_arith)
            requires
                sq < 0x800_0000_0000_0000,
                w > 0,
        ;
        assert(q < 0x100_0000_0000_0000_0000);
        assert(rem * 1000000000000 <= 1000000000000 * sq);
        lemma_round_div_bound((rem * 1000000000000) as int, sq as int, 1000000000000);
        lemma_round_div_split(ua as int, sq as int, 1000000000000);
    }
    let frac: i128 = round_div_exec((rem * 1000000000000) as i128, sq as i128);
    let mag: i128 = (q as i128) * 1000000000000 + frac;
    let norm: i128 = if a >= 0 {
        mag
    } else {
        0 - mag
    };
    proof {
        assert(norm == round_div(a * 1000000000000, sq as int));
        lemma_year_count_bound(seeds);
        lemma_seed_count(seeds);
    }
    let rec = recency_of(profile, year);
    let total: i128 = 72 * norm + 18 * (tenths as i128) * 1000000 + 10 * rec;
    proof {
        let b: int = (72 * (0x100_0000_0000_0000_0000 * 1000000000000 + 1000000000001) + 18
            * 4294967295 * 1000000 + 10 * 100000000) as int;
        assert(-(b * 1) <= total <= b * 1000000);
        assert(-(b * 1000000) <= total);
        lemma_round_div_bound(total as int, 1000000, b);
    }
    round_div_exec(total, 1000000)
}

/// The candidate features that the profile weighs positively, in order.
pub open spec fn positive_features(fs: Seq<Seq<char>>, seeds: Seq<ScoredSeed>) -> Seq<Seq<char>>
    decreases fs.len(),
{
    if fs.len() == 0 {
        seq![]
    } else if profile_weight(seeds, fs.last()) > 0 {
        positive_features(fs.drop_last(), seeds).push(fs.last())
    } else {
        positive_features(fs.drop_last(), seeds)
    }
}

/// A feature shown as a reason: its feature-type prefix removed and dashes turned into spaces.
pub open spec fn feature_label(f: Seq<char>) -> Seq<char> {
    replace_all(
        strip_prefixes(
            strip_prefixes(strip_prefixes(strip_prefixes(f, "genre:"@), "tag:"@), "type:"@),
            "era:"@,
        ),
        "-"@,
        " "@,
    )
}

/// Why a candidate is recommended: the labels of its first three positively weighed
/// features, then `strong community score` when its score is at least 8; at most four.
pub open spec fn reasons_spec(p: AnimePreview, seeds: Seq<ScoredSeed>) -> Seq<Seq<char>> {
    let labels = first_n(positive_features(preview_features(p), seeds), 3).map_values(
        |f: Seq<char>| feature_label(f),
    );
    first_n(
        labels + if tenths_or_zero(p) >= 80 {
            seq!["strong community score"@]
        } else {
            Seq::<Seq<char>>::empty()
        },
        4,
    )
}

/// The label of a feature.
fn label_of(f: &String) -> (r: String)
    ensures
        r@ == feature_label(f@),
{
    let a = trim_start_matches(f.as_str(), "genre:");
    let b = trim_start_matches(a.as_str(), "tag:");
    let c = trim_start_matches(b.as_str(), "type:");
    let d = trim_start_matches(c.as_str(), "era:");
    proof {
        reveal_strlit("-");
    }
    replace(d.as_str(), "-", " ")
}

proof fn lemma_positive_prefix(fs: Seq<Seq<char>>, seeds: Seq<ScoredSeed>, i: int)
    requires
        0 <= i <= fs.len(),
    ensures
        positive_features(fs.take(i), seeds).len() <= positive_features(fs, seeds).len(),
        first_n(positive_features(fs, seeds), 3).len() == 3 && positive_features(fs.take(i), seeds).len()
            >= 3 ==> first_n(positive_features(fs.take(i), seeds), 3) == first_n(positive_features(fs, seeds), 3),
    decreases fs.len() - i,
{
    if i < fs.len() {
        lemma_positive_prefix(fs, seeds, i + 1);
        assert(fs.take(i + 1).drop_last() =~= fs.take(i));
        let p = positive_features(fs.take(i), seeds);
        let q = positive_features(fs.take(i + 1), seeds);
        if q.len() > p.len() {
            assert(q == p.push(fs[i]));
            if p.len() >= 3 {
                assert(p.take(3) =~= q.take(3));
            }
        }
    } else {
        assert(fs.take(i) =~= fs);
    }
}

/// The reasons for recommending a candidate.
fn reasons_for(
    candidate: &AnimePreview,
    features: &Vec<String>,
    profile: &Profile,
    Ghost(seeds): Ghost<Seq<ScoredSeed>>,
) -> (r: Vec<String>)
    requires
        profile_of(*profile, seeds),
        seeds_fit(seeds),
        views(features@) == preview_features(*candidate),
    ensures
        views(r@) == reasons_spec(*candidate, seeds),
{
    let ghost fs = views(features@);
    let mut matches: Vec<String> = Vec::new();
    let mut found: usize = 0;
    let mut i: usize = 0;
    while i < features.len() && found < 3
        invariant
            profile_of(*profile, seeds),
            seeds_fit(seeds),
            fs == views(features@),
            i <= features@.len(),
            found == positive_features(fs.take(i as int), seeds).len(),
            found <= 3,
            matches@.len() == found,
            views(matches@) == positive_features(fs.take(i as int), seeds).map_values(
                |f: Seq<char>| feature_label(f),
            ),
        decreases features.len() - i,
    {
        let w = weight_of(profile, &features[i], Ghost(seeds));
        proof {
            assert(fs.take(i + 1).drop_last() =~= fs.take(i as int));
            assert(fs.take(i + 1).last() == features@[i as int]@);
        }
        if w > 0 {
            let label = label_of(&features[i]);
            let ghost before = matches@;
            matches.push(label);
            proof {
                let want = positive_features(fs.take(i + 1), seeds).map_values(
                    |f: Seq<char>| feature_label(f),
                );
                assert(positive_features(fs.take(i + 1), seeds) == positive_features(
                    fs.take(i as int),
                    seeds,
                ).push(fs[i as int]));
                assert forall|k: int| 0 <= k < matches@.len() implies #[trigger] views(matches@)[k]
                    == want[k] by {
                    if k < before.len() {
                        assert(matches@[k] == before[k]);
                        assert(views(before)[k] == views(matches@)[k]);
                    } else {
                        assert(matches@[k]@ == feature_label(features@[i as int]@));
                    }
                }
                assert(views(matches@) =~= want);
            }
            found = found + 1;
        }
        i = i + 1;
    }
    proof {
        lemma_positive_prefix(fs, seeds, i as int);
        let all = positive_features(fs, seeds);
        let got = positive_features(fs.take(i as int), seeds);
        if found < 3 {
            assert(i == features@.len());
            assert(fs.take(i as int) =~= fs);
            assert(first_n(all, 3) == all);
        } else {
            assert(got.len() == 3);
            assert(first_n(got, 3) == got);
            if all.len() > 3 {
                assert(first_n(all, 3).len() == 3);
            } else {
                assert(all.len() == 3);
            }
        }
    }
    if candidate.score.is_some() && candidate.score.unwrap() >= 80 {
        matches.push(String::from_str("strong community score"));
    }
    proof {
        let labels = first_n(positive_features(fs, seeds), 3).map_values(
            |f: Seq<char>| feature_label(f),
        );
        let extra = if tenths_or_zero(*candidate) >= 80 {
            seq!["strong community score"@]
        } else {
            Seq::<Seq<char>>::empty()
        };
        assert(views(matches@) =~= labels + extra);
        assert(first_n(labels + extra, 4) == labels + extra);
    }
    matches
}

/// A scored candidate: the candidate unchanged, its score, and its reasons when they are
/// asked for and there are any.
pub open spec fn scored_spec(
    r: RecommendationPreview,
    p: AnimePreview,
    seeds: Seq<ScoredSeed>,
    include_reasons: bool,
) -> bool {
    let reasons = reasons_spec(p, seeds);
    &&& r.preview == p
    &&& r.recommendation_score == candidate_score(p, seeds)
    &&& match r.reasons {
        Some(v) => include_reasons && reasons.len() > 0 && views(v@) == reasons,
        None => !include_reasons || reasons.len() == 0,
    }
}

/// Scores a candidate against the profile of `seeds`: the candidate unchanged, its
/// recommendation score, and its reasons when they are asked for and there are any.
pub fn score_candidate(candidate: AnimePreview, profile: &Profile, include_reasons: bool) -> (r: RecommendationPreview)
    requires
        profile_of(*profile, profile.seeds@),
        seeds_fit(profile.seeds@),
    ensures
        scored_spec(r, candidate, profile.seeds@, include_reasons),
{
    let ghost seeds = profile.seeds@;
    let features = features_of_preview(&candidate);
    let tenths: u32 = match candidate.score {
        Some(t) => t,
        None => 0,
    };
    let score = score_value(&features, tenths, candidate.year, profile, Ghost(seeds));
    let reasons = if include_reasons {
        let v = reasons_for(&candidate, &features, profile, Ghost(seeds));
        if v.len() > 0 {
            Some(v)
        } else {
            None
        }
    } else {
        None
    };
    RecommendationPreview { preview: candidate, recommendation_score: score, reasons }
}

// ---------------------------------------------------------------------------
// Diversity
// ---------------------------------------------------------------------------

/// Whether some genre of `b` is also a genre of `a`.
pub open spec fn genres_meet(a: Seq<Seq<char>>, b: Seq<Seq<char>>) -> bool {
    exists|j: int| 0 <= j < b.len() && a.contains(#[trigger] b[j])
}

/// How many selected items share a genre with `item`.
pub open spec fn overlap_count(selected: Seq<RecommendationPreview>, item: RecommendationPreview) -> nat
    decreases selected.len(),
{
    if selected.len() == 0 {
        0
    } else {
        overlap_count(selected.drop_last(), item) + if genres_meet(
            views(item.preview.genres@),
            views(selected.last().preview.genres@),
        ) {
            1nat
        } else {
            0nat
        }
    }
}

/// `limit` divided by three, rounded up.
pub open spec fn third_of(limit: int) -> int {
    (limit + 2) / 3
}

/// Whether an item joins the selection: it shares genres with fewer than four selected
/// items, or fewer than a third of `limit` (rounded up) are selected so far.
pub open spec fn admits(selected: Seq<RecommendationPreview>, item: RecommendationPreview, limit: int) -> bool {
    overlap_count(selected, item) < 4 || selected.len() < third_of(limit)
}

/// The greedy diversity pass from a current selection: each item in turn joins when
/// admitted, and the pass stops as soon as `limit` items are selected.
pub open spec fn diversify_from(
    items: Seq<RecommendationPreview>,
    limit: int,
    selected: Seq<RecommendationPreview>,
) -> Seq<RecommendationPreview>
    decreases items.len(),
{
    if items.len() == 0 {
        selected
    } else {
        let next = if admits(selected, items[0], limit) {
            selected.push(items[0])
        } else {
            selected
        };
        if next.len() >= limit {
            next
        } else {
            diversify_from(items.drop_first(), limit, next)
        }
    }
}

/// The greedy diversity pass over ranked items.
pub open spec fn diversify_spec(items: Seq<RecommendationPreview>, limit: int) -> Seq<
    RecommendationPreview,
> {
    diversify_from(items, limit, seq![])
}

/// Whether `a` and `b` share a genre.
fn genres_overlap(a: &Vec<String>, b: &Vec<String>) -> (r: bool)
    ensures
        r == genres_meet(views(a@), views(b@)),
{
    for j in 0..b.len()
        invariant
            forall|k: int| 0 <= k < j ==> !views(a@).contains(#[trigger] views(b@)[k]),
    {
        if contains_string(a, &b[j]) {
            assert(views(b@)[j as int] == b@[j as int]@);
            return true;
        }
    }
    false
}

/// How many selected items share a genre with `item`.
fn count_overlaps(selected: &Vec<RecommendationPreview>, item: &RecommendationPreview) -> (r: usize)
    ensures
        r == overlap_count(selected@, *item),
{
    let mut n: usize = 0;
    for k in 0..selected.len()
        invariant
            n == overlap_count(selected@.take(k as int), *item),
            n <= k,
    {
        proof {
            assert(selected@.take(k + 1).drop_last() =~= selected@.take(k as int));
        }
        if genres_overlap(&item.preview.genres, &selected[k].preview.genres) {
            n = n + 1;
        }
    }
    assert(selected@.take(selected@.len() as int) =~= selected@);
    n
}

/// Keeps the ranked items in order while no more than four selected items share a genre
/// with each newcomer, once a third of `limit` is filled; stops at `limit` items.
pub fn diversify(items: Vec<RecommendationPreview>, limit: usize) -> (r: Vec<RecommendationPreview>)
    ensures
        r@ == diversify_spec(items@, limit as int),
{
    let mut rest = items;
    let mut selected: Vec<RecommendationPreview> = Vec::new();
    let third: usize = limit / 3 + if limit % 3 == 0 { 0 } else { 1 };
    assert(third == third_of(limit as int));
    while rest.len() > 0
        invariant
            third == third_of(limit as int),
            diversify_from(rest@, limit as int, selected@) == diversify_spec(items@, limit as int),
        decreases rest.len(),
    {
        let ghost before = rest@;
        let item = rest.remove(0);
        assert(before[0] == item);
        assert(before.drop_first() =~= rest@);
        let overlaps = count_overlaps(&selected, &item);
        if overlaps < 4 || selected.len() < third {
            selected.push(item);
        }
        if selected.len() >= limit {
            return selected;
        }
    }
    selected
}

/// The diversity pass from a selection shorter than `limit` keeps that selection as its
/// prefix, adds only items from `items`, stops at `limit`, and admits every item while
/// fewer than a third of `limit` are selected.
pub proof fn lemma_diversify_from(items: Seq<RecommendationPreview>, limit: int, sel: Seq<RecommendationPreview>)
    requires
        limit >= 1,
        sel.len() < limit,
    ensures
        sel.len() <= diversify_from(items, limit, sel).len() <= limit,
        diversify_from(items, limit, sel).len() <= sel.len() + items.len(),
        diversify_from(items, limit, sel).take(sel.len() as int) == sel,
        forall|i: int|
            sel.len() <= i < diversify_from(items, limit, sel).len() ==> items.contains(
                #[trigger] diversify_from(items, limit, sel)[i],
            ),
        sel.len() <= third_of(limit) ==> ({
            let m = if third_of(limit) - sel.len() <= items.len() {
                third_of(limit) - sel.len()
            } else {
                items.len() as int
            };
            &&& diversify_from(items, limit, sel).len() >= sel.len() + m
            &&& diversify_from(items, limit, sel).subrange(sel.len() as int, sel.len() + m)
                == items.take(m)
        }),
    decreases items.len(),
{
    let r = diversify_from(items, limit, sel);
    let third = third_of(limit);
    assert(third <= limit);
    if items.len() == 0 {
        assert(r.take(sel.len() as int) =~= sel);
        assert(items.take(0) =~= r.subrange(sel.len() as int, sel.len() as int));
    } else {
        let next = if admits(sel, items[0], limit) {
            sel.push(items[0])
        } else {
            sel
        };
        if sel.len() < third {
            assert(admits(sel, items[0], limit));
        }
        if next.len() >= limit {
            assert(r == next);
            assert(next == sel.push(items[0]));
            assert(r.take(sel.len() as int) =~= sel);
            assert forall|i: int| sel.len() <= i < r.len() implies items.contains(#[trigger] r[i]) by {
                assert(r[i] == items[0]);
            }
            if sel.len() <= third {
                let m = if third - sel.len() <= items.len() {
                    third - sel.len()
                } else {
                    items.len() as int
                };
                assert(m <= 1);
                if m == 1 {
                    assert(r.subrange(sel.len() as int, sel.len() + 1int) =~= items.take(1));
                } else {
                    assert(r.subrange(sel.len() as int, sel.len() as int) =~= items.take(0));
                }
            }
        } else {
            let rest = items.drop_first();
            lemma_diversify_from(rest, limit, next);
            assert(r == diversify_from(rest, limit, next));
            assert(r.take(next.len() as int) == next);
            assert(r.take(sel.len() as int) =~= next.take(sel.len() as int));
            assert(next.take(sel.len() as int) =~= sel);
            assert forall|i: int| sel.len() <= i < r.len() implies items.contains(#[trigger] r[i]) by {
                if i < next.len() {
                    assert(r[i] == r.take(next.len() as int)[i]);
                    assert(r[i] == items[0]);
                } else {
                    assert(rest.contains(r[i]));
                    let k = choose|k: int| 0 <= k < rest.len() && rest[k] == r[i];
                    assert(items[k + 1] == r[i]);
                }
            }
            if sel.len() <= third {
                let m = if third - sel.len() <= items.len() {
                    third - sel.len()
                } else {
                    items.len() as int
                };
                if sel.len() < third {
                    assert(next == sel.push(items[0]));
                    let m2 = if third - next.len() <= rest.len() {
                        third - next.len()
                    } else {
                        rest.len() as int
                    };
                    assert(m2 == m - 1);
                    assert(r.subrange(next.len() as int, next.len() + m2) == rest.take(m2));
                    assert(r[sel.len() as int] == r.take(next.len() as int)[sel.len() as int]);
                    assert forall|j: int| 0 <= j < m implies #[trigger] r.subrange(sel.len() as int, sel.len() + m)[j] == items.take(m)[j] by {
                        if j == 0 {
                            assert(r[sel.len() as int] == items[0]);
                        } else {
                            assert(r.subrange(next.len() as int, next.len() + m2)[j - 1] == rest.take(m2)[j - 1]);
                        }
                    }
                    assert(r.subrange(sel.len() as int, sel.len() + m) =~= items.take(m));
                } else {
                    assert(m == 0);
                    assert(r.subrange(sel.len() as int, sel.len() as int) =~= items.take(0));
                }
            }
        }
    }
}

/// Whether `idx` picks `r` out of `items` in order: `r[k]` is `items[idx[k]]`, and the
/// positions strictly increase.
pub open spec fn picks_in_order(r: Seq<RecommendationPreview>, items: Seq<RecommendationPreview>, idx: Seq<int>) -> bool {
    &&& idx.len() == r.len()
    &&& forall|k: int| 0 <= k < idx.len() ==> 0 <= #[trigger] idx[k] < items.len() && r[k] == items[idx[k]]
    &&& forall|k: int, l: int| 0 <= k < l < idx.len() ==> #[trigger] idx[k] < #[trigger] idx[l]
}

/// The diversity pass only leaves items out: what it adds to the selection is picked from
/// the ranked items in their order.
pub proof fn lemma_diversify_keeps_order(items: Seq<RecommendationPreview>, limit: int, sel: Seq<RecommendationPreview>)
    ensures
        diversify_from(items, limit, sel).len() >= sel.len(),
        diversify_from(items, limit, sel).take(sel.len() as int) == sel,
        exists|idx: Seq<int>| picks_in_order(diversify_from(items, limit, sel).skip(sel.len() as int), items, idx),
    decreases items.len(),
{
    let r = diversify_from(items, limit, sel);
    if items.len() == 0 {
        assert(r.take(sel.len() as int) =~= sel);
        assert(picks_in_order(r.skip(sel.len() as int), items, Seq::<int>::empty()));
    } else {
        let admitted = admits(sel, items[0], limit);
        let next = if admitted {
            sel.push(items[0])
        } else {
            sel
        };
        let rest = items.drop_first();
        let head: Seq<int> = if admitted { seq![0int] } else { Seq::<int>::empty() };
        assert(next.skip(sel.len() as int) =~= (if admitted { seq![items[0]] } else { Seq::<RecommendationPreview>::empty() }));
        if next.len() >= limit {
            assert(r == next);
            assert(r.take(sel.len() as int) =~= sel);
            assert(picks_in_order(r.skip(sel.len() as int), items, head));
        } else {
            lemma_diversify_keeps_order(rest, limit, next);
            assert(r == diversify_from(rest, limit, next));
            let idx = choose|idx: Seq<int>| picks_in_order(r.skip(next.len() as int), rest, idx);
            let shifted = idx.map_values(|i: int| i + 1);
            let all = head + shifted;
            let tail = r.skip(sel.len() as int);
            assert(r.take(next.len() as int) == next);
            assert(r.take(sel.len() as int) =~= next.take(sel.len() as int));
            assert(next.take(sel.len() as int) =~= sel);
            assert forall|k: int| 0 <= k < all.len() implies 0 <= #[trigger] all[k] < items.len() && tail[k] == items[all[k]] by {
                if k < head.len() {
                    assert(admitted && all[k] == 0);
                    assert(tail[k] == r[sel.len() as int]);
                    assert(r[sel.len() as int] == r.take(next.len() as int)[sel.len() as int]);
                } else {
                    let j = k - head.len();
                    assert(all[k] == shifted[j] && shifted[j] == idx[j] + 1);
                    assert(tail[k] == r[sel.len() + k]);
                    assert(sel.len() + k == next.len() + j);
                    assert(r.skip(next.len() as int)[j] == r[next.len() + j]);
                    assert(rest[idx[j]] == items[idx[j] + 1]);
                }
            }
            assert forall|k: int, l: int| 0 <= k < l < all.len() implies #[trigger] all[k] < #[trigger] all[l] by {
                if k >= head.len() {
                    assert(all[k] == idx[k - head.len()] + 1 && all[l] == idx[l - head.len()] + 1);
                } else {
                    assert(all[k] == 0);
                    assert(all[l] == idx[l - head.len()] + 1);
                    assert(idx[l - head.len()] >= 0);
                }
            }
            assert(tail.len() == r.len() - sel.len());
            assert(r.skip(next.len() as int).len() == r.len() - next.len());
            assert(picks_in_order(tail, items, all));
        }
    }
}

/// Diversity pressure: every item picked once a third of `limit` is filled shares a genre
/// with fewer than four of the items picked before it.
pub proof fn lemma_diversify_pressure(items: Seq<RecommendationPreview>, limit: int, sel: Seq<RecommendationPreview>)
    requires
        forall|i: int| 0 <= third_of(limit) <= i < sel.len() ==> overlap_count(sel.take(i), #[trigger] sel[i]) < 4,
    ensures
        forall|i: int| 0 <= third_of(limit) <= i < diversify_from(items, limit, sel).len() ==> overlap_count(
            diversify_from(items, limit, sel).take(i),
            #[trigger] diversify_from(items, limit, sel)[i],
        ) < 4,
    decreases items.len(),
{
    if items.len() > 0 {
        let admitted = admits(sel, items[0], limit);
        let next = if admitted {
            sel.push(items[0])
        } else {
            sel
        };
        assert forall|i: int| 0 <= third_of(limit) <= i < next.len() implies overlap_count(next.take(i), #[trigger] next[i]) < 4 by {
            if i < sel.len() {
                assert(next.take(i) =~= sel.take(i));
                assert(next[i] == sel[i]);
            } else {
                assert(admitted);
                assert(next.take(i) =~= sel);
                assert(next[i] == items[0]);
            }
        }
        if next.len() < limit {
            lemma_diversify_pressure(items.drop_first(), limit, next);
            assert(diversify_from(items, limit, sel) == diversify_from(items.drop_first(), limit, next));
        } else {
            assert(diversify_from(items, limit, sel) == next);
        }
    } else {
        assert(diversify_from(items, limit, sel) == sel);
    }
}

/// The diversity pass keeps best-first order: from items ordered by descending score and
/// a selection that is ordered and scores at least as high as every item, the result is
/// ordered.
pub proof fn lemma_diversify_sorted(items: Seq<RecommendationPreview>, limit: int, sel: Seq<RecommendationPreview>)
    requires
        is_sorted_desc(items, score_key()),
        is_sorted_desc(sel, score_key()),
        forall|a: int, b: int| 0 <= a < sel.len() && 0 <= b < items.len() ==> score_key()(#[trigger] sel[a]) >= score_key()(#[trigger] items[b]),
    ensures
        is_sorted_desc(diversify_from(items, limit, sel), score_key()),
    decreases items.len(),
{
    if items.len() > 0 {
        let next = if admits(sel, items[0], limit) {
            sel.push(items[0])
        } else {
            sel
        };
        let rest = items.drop_first();
        assert(is_sorted_desc(next, score_key())) by {
            assert forall|i: int, j: int| 0 <= i < j < next.len() implies score_key()(#[trigger] next[i]) >= score_key()(#[trigger] next[j]) by {
                if j == sel.len() {
                    assert(next[j] == items[0]);
                    assert(next[i] == sel[i]);
                } else {
                    assert(next[i] == sel[i] && next[j] == sel[j]);
                }
            }
        }
        assert(is_sorted_desc(rest, score_key())) by {
            assert forall|i: int, j: int| 0 <= i < j < rest.len() implies score_key()(#[trigger] rest[i]) >= score_key()(#[trigger] rest[j]) by {
                assert(rest[i] == items[i + 1] && rest[j] == items[j + 1]);
            }
        }
        assert forall|a: int, b: int| 0 <= a < next.len() && 0 <= b < rest.len() implies score_key()(#[trigger] next[a]) >= score_key()(#[trigger] rest[b]) by {
            assert(rest[b] == items[b + 1]);
            if a == sel.len() {
                assert(next[a] == items[0]);
            } else {
                assert(next[a] == sel[a]);
            }
        }
        if next.len() < limit {
            lemma_diversify_sorted(rest, limit, next);
        }
    }
}

/// The id of a scored candidate.
pub open spec fn preview_id() -> spec_fn(RecommendationPreview) -> Seq<char> {
    |r: RecommendationPreview| r.preview.id@
}

proof fn lemma_diversify_distinct(items: Seq<RecommendationPreview>, limit: int, sel: Seq<RecommendationPreview>)
    requires
        distinct_by(items, preview_id()),
        distinct_by(sel, preview_id()),
        forall|a: int, b: int| 0 <= a < sel.len() && 0 <= b < items.len() ==> preview_id()(#[trigger] sel[a]) != preview_id()(#[trigger] items[b]),
    ensures
        distinct_by(diversify_from(items, limit, sel), preview_id()),
    decreases items.len(),
{
    if items.len() > 0 {
        let next = if admits(sel, items[0], limit) {
            sel.push(items[0])
        } else {
            sel
        };
        let rest = items.drop_first();
        assert(distinct_by(next, preview_id())) by {
            assert forall|i: int, j: int| 0 <= i < j < next.len() implies preview_id()(#[trigger] next[i]) != preview_id()(#[trigger] next[j]) by {
                assert(next[i] == sel[i]);
                if j == sel.len() {
                    assert(next[j] == items[0]);
                } else {
                    assert(next[j] == sel[j]);
                }
            }
        }
        assert(distinct_by(rest, preview_id())) by {
            assert forall|i: int, j: int| 0 <= i < j < rest.len() implies preview_id()(#[trigger] rest[i]) != preview_id()(#[trigger] rest[j]) by {
                assert(rest[i] == items[i + 1] && rest[j] == items[j + 1]);
            }
        }
        assert forall|a: int, b: int| 0 <= a < next.len() && 0 <= b < rest.len() implies preview_id()(#[trigger] next[a]) != preview_id()(#[trigger] rest[b]) by {
            assert(rest[b] == items[b + 1]);
            if a == sel.len() {
                assert(next[a] == items[0]);
            } else {
                assert(next[a] == sel[a]);
            }
        }
        if next.len() < limit {
            lemma_diversify_distinct(rest, limit, next);
        }
    }
}

/// The titles of `items`, keeping only the first item with each id.
pub open spec fn unique_by_id_spec(items: Seq<AnimePreview>) -> Seq<AnimePreview>
    decreases items.len(),
{
    if items.len() == 0 {
        seq![]
    } else {
        let prev = unique_by_id_spec(items.drop_last());
        if ids_of(prev).contains(items.last().id@) {
            prev
        } else {
            prev.push(items.last())
        }
    }
}

/// The ids of titles.
pub open spec fn ids_of(items: Seq<AnimePreview>) -> Seq<Seq<char>> {
    items.map_values(|p: AnimePreview| p.id@)
}

/// Whether some title of `items` has the id `id`.
fn has_id(items: &Vec<AnimePreview>, id: &String) -> (r: bool)
    ensures
        r == ids_of(items@).contains(id@),
{
    for k in 0..items.len()
        invariant
            forall|j: int| 0 <= j < k ==> ids_of(items@)[j] != id@,
    {
        if items[k].id == *id {
            assert(ids_of(items@)[k as int] == id@);
            return true;
        }
    }
    false
}

/// The kept titles have distinct ids, every input id is kept, and every kept title is an
/// input title.
pub proof fn lemma_unique_by_id(items: Seq<AnimePreview>)
    ensures
        forall|i: int, j: int| 0 <= i < j < unique_by_id_spec(items).len() ==> (#[trigger] unique_by_id_spec(items)[i]).id@ != (#[trigger] unique_by_id_spec(items)[j]).id@,
        forall|k: int| 0 <= k < items.len() ==> ids_of(unique_by_id_spec(items)).contains((#[trigger] items[k]).id@),
        forall|i: int| 0 <= i < unique_by_id_spec(items).len() ==> items.contains(#[trigger] unique_by_id_spec(items)[i]),
    decreases items.len(),
{
    if items.len() > 0 {
        let init = items.drop_last();
        lemma_unique_by_id(init);
        let prev = unique_by_id_spec(init);
        let out = unique_by_id_spec(items);
        let last = items.last();
        assert forall|i: int, j: int| 0 <= i < j < out.len() implies (#[trigger] out[i]).id@ != (#[trigger] out[j]).id@ by {
            if j >= prev.len() {
                assert(out[i] == prev[i]);
                assert(out[j] == last);
                assert(ids_of(prev)[i] == prev[i].id@);
            } else {
                assert(out[i] == prev[i] && out[j] == prev[j]);
            }
        }
        assert forall|k: int| 0 <= k < items.len() implies ids_of(out).contains((#[trigger] items[k]).id@) by {
            if k < init.len() {
                assert(items[k] == init[k]);
                assert(ids_of(prev).contains(init[k].id@));
                let j = choose|j: int| 0 <= j < ids_of(prev).len() && ids_of(prev)[j] == init[k].id@;
                assert(ids_of(out)[j] == ids_of(prev)[j]);
            } else {
                assert(items[k] == last);
                if !ids_of(prev).contains(last.id@) {
                    assert(ids_of(out)[prev.len() as int] == last.id@);
                }
            }
        }
        assert forall|i: int| 0 <= i < out.len() implies items.contains(#[trigger] out[i]) by {
            if i < prev.len() {
                assert(out[i] == prev[i]);
                let k = choose|k: int| 0 <= k < init.len() && init[k] == prev[i];
                assert(items[k] == init[k]);
            } else {
                assert(items[items.len() - 1] == last);
            }
        }
    }
}

/// Keeps the first title with each id, in order.
pub fn unique_by_id(items: Vec<AnimePreview>) -> (r: Vec<AnimePreview>)
    ensures
        r@ == unique_by_id_spec(items@),
{
    let mut rest = items;
    let mut out: Vec<AnimePreview> = Vec::new();
    let ghost n = items@.len();
    while rest.len() > 0
        invariant
            rest@.len() <= n,
            n == items@.len(),
            rest@ == items@.skip(n - rest@.len()),
            out@ == unique_by_id_spec(items@.take(n - rest@.len())),
        decreases rest.len(),
    {
        let ghost i = n - rest@.len();
        let ghost before = rest@;
        let item = rest.remove(0);
        proof {
            assert(before[0] == items@[i]);
            assert(rest@ =~= items@.skip(i + 1));
            assert(items@.take(i + 1).drop_last() =~= items@.take(i));
            assert(items@.take(i + 1).last() == item);
        }
        if !has_id(&out, &item.id) {
            out.push(item);
        }
    }
    assert(items@.take(n as int) =~= items@);
    out
}

// ---------------------------------------------------------------------------
// Ranking
// ---------------------------------------------------------------------------

/// The ids of the seed titles.
pub open spec fn seed_ids(seeds: Seq<ScoredSeed>) -> Seq<Seq<char>> {
    seeds.map_values(|s: ScoredSeed| s.anime.id@)
}

/// The candidates whose id is not in `seen`, in order.
pub open spec fn unseen(candidates: Seq<AnimePreview>, seen: Seq<Seq<char>>) -> Seq<AnimePreview>
    decreases candidates.len(),
{
    if candidates.len() == 0 {
        seq![]
    } else if seen.contains(candidates.last().id@) {
        unseen(candidates.drop_last(), seen)
    } else {
        unseen(candidates.drop_last(), seen).push(candidates.last())
    }
}

/// The ranking key of a scored candidate: its recommendation score.
pub open spec fn score_key() -> spec_fn(RecommendationPreview) -> int {
    |r: RecommendationPreview| r.recommendation_score as int
}

/// `r` is the diversified, best-first ranking of `scored`, which scores `kept` one by one.
pub open spec fn ranked_from(
    r: Seq<RecommendationPreview>,
    scored: Seq<RecommendationPreview>,
    seeds: Seq<ScoredSeed>,
    kept: Seq<AnimePreview>,
    limit: int,
    include_reasons: bool,
) -> bool {
    &&& scored.len() == kept.len()
    &&& forall|i: int| 0 <= i < scored.len() ==> scored_spec(#[trigger] scored[i], kept[i], seeds, include_reasons)
    &&& r == diversify_spec(sort_desc(scored, score_key()), limit)
}

/// The recommendations for liked and disliked seeds among candidates: nothing without a
/// liked seed; otherwise the candidates that are not seeds, scored against the profile of
/// all seeds, ordered best first (ties keep their order), then diversified to `limit`.
pub open spec fn ranking_spec(
    r: Seq<RecommendationPreview>,
    liked: Seq<ScoredSeed>,
    disliked: Seq<ScoredSeed>,
    candidates: Seq<AnimePreview>,
    limit: int,
    include_reasons: bool,
) -> bool {
    if liked.len() == 0 {
        r.len() == 0
    } else {
        let seeds = liked + disliked;
        exists|scored: Seq<RecommendationPreview>| #[trigger]
            ranked_from(
                r,
                scored,
                seeds,
                unseen(candidates, seed_ids(seeds)),
                limit,
                include_reasons,
            )
    }
}

/// The ids of the seeds.
fn ids_of_seeds(liked: &Vec<ScoredSeed>, disliked: &Vec<ScoredSeed>) -> (r: Vec<String>)
    ensures
        views(r@) == seed_ids(liked@ + disliked@),
{
    let mut out: Vec<String> = Vec::new();
    let ghost all = liked@ + disliked@;
    for i in 0..liked.len()
        invariant
            all == liked@ + disliked@,
            out@.len() == i,
            views(out@) == seed_ids(all).take(i as int),
    {
        let ghost before = out@;
        out.push(liked[i].anime.id.clone());
        proof {
            assert(all[i as int] == liked@[i as int]);
            assert forall|k: int| 0 <= k < out@.len() implies #[trigger] views(out@)[k] == seed_ids(all).take(i + 1)[k] by {
                if k < i {
                    assert(out@[k] == before[k]);
                    assert(views(before)[k] == views(out@)[k]);
                }
            }
            assert(views(out@) =~= seed_ids(all).take(i + 1));
        }
    }
    for j in 0..disliked.len()
        invariant
            all == liked@ + disliked@,
            out@.len() == liked@.len() + j,
            views(out@) == seed_ids(all).take(liked@.len() + j),
    {
        let ghost before = out@;
        out.push(disliked[j].anime.id.clone());
        proof {
            assert(all[liked@.len() + j] == disliked@[j as int]);
            assert forall|k: int| 0 <= k < out@.len() implies #[trigger] views(out@)[k] == seed_ids(all).take(liked@.len() + j + 1)[k] by {
                if k < liked@.len() + j {
                    assert(out@[k] == before[k]);
                    assert(views(before)[k] == views(out@)[k]);
                }
            }
            assert(views(out@) =~= seed_ids(all).take(liked@.len() + j + 1));
        }
    }
    assert(seed_ids(all).take(all.len() as int) =~= seed_ids(all));
    out
}

/// Ranks candidate titles for liked and disliked seed titles.
pub fn rank_candidates(
    liked: &Vec<ScoredSeed>,
    disliked: &Vec<ScoredSeed>,
    candidates: Vec<AnimePreview>,
    limit: usize,
    include_reasons: bool,
) -> (r: Vec<RecommendationPreview>)
    requires
        seeds_fit(liked@ + disliked@),
    ensures
        ranking_spec(r@, liked@, disliked@, candidates@, limit as int, include_reasons),
{
    if liked.len() == 0 {
        return Vec::new();
    }
    let ghost seeds = liked@ + disliked@;
    let profile = build_profile(liked, disliked);
    let seen = ids_of_seeds(liked, disliked);
    let ghost seen_ids = views(seen@);
    let ghost all = candidates@;
    let ghost n = all.len();
    let mut rest = candidates;
    let mut sorted: Vec<RecommendationPreview> = Vec::new();
    let ghost mut scored: Seq<RecommendationPreview> = seq![];
    while rest.len() > 0
        invariant
            profile_of(profile, seeds),
            profile.seeds@ == seeds,
            seeds_fit(seeds),
            seen_ids == views(seen@),
            seen_ids == seed_ids(seeds),
            n == all.len(),
            rest@.len() <= n,
            rest@ == all.skip(n - rest@.len()),
            scored.len() == unseen(all.take(n - rest@.len()), seen_ids).len(),
            forall|k: int| 0 <= k < scored.len() ==> scored_spec(
                #[trigger] scored[k],
                unseen(all.take(n - rest@.len()), seen_ids)[k],
                seeds,
                include_reasons,
            ),
            sorted@ == sort_desc(scored, score_key()),
        decreases rest.len(),
    {
        let ghost i = n - rest@.len();
        let ghost before = rest@;
        let c = rest.remove(0);
        proof {
            assert(before[0] == all[i]);
            assert(rest@ =~= all.skip(i + 1));
            assert(all.take(i + 1).drop_last() =~= all.take(i));
            assert(all.take(i + 1).last() == c);
        }
        if !contains_string(&seen, &c.id) {
            let ghost cand = c;
            let rp = score_candidate(c, &profile, include_reasons);
            let key = rp.recommendation_score;
            let mut p: usize = 0;
            while p < sorted.len() && sorted[p].recommendation_score >= key
                invariant
                    p <= sorted@.len(),
                    key == rp.recommendation_score,
                    forall|k: int| 0 <= k < p ==> score_key()(#[trigger] sorted@[k]) >= key,
                decreases sorted.len() - p,
            {
                p = p + 1;
            }
            proof {
                assert(first_smaller(sorted@, score_key()(rp), score_key(), p as int));
                lemma_insert_desc_at(sorted@, rp, score_key(), p as int);
                assert(scored.push(rp).drop_last() =~= scored);
                let kept_next = unseen(all.take(i + 1), seen_ids);
                assert(kept_next == unseen(all.take(i), seen_ids).push(cand));
            }
            sorted.insert(p, rp);
            proof {
                scored = scored.push(rp);
            }
        }
    }
    assert(all.take(n as int) =~= all);
    let r = diversify(sorted, limit);
    assert(ranked_from(r@, scored, seeds, unseen(all, seed_ids(seeds)), limit as int, include_reasons));
    r
}

proof fn lemma_unseen_distinct(candidates: Seq<AnimePreview>, seen: Seq<Seq<char>>)
    requires
        forall|i: int, j: int| 0 <= i < j < candidates.len() ==> (#[trigger] candidates[i]).id@ != (#[trigger] candidates[j]).id@,
    ensures
        forall|i: int, j: int| 0 <= i < j < unseen(candidates, seen).len() ==> (#[trigger] unseen(candidates, seen)[i]).id@
            != (#[trigger] unseen(candidates, seen)[j]).id@,
    decreases candidates.len(),
{
    if candidates.len() > 0 {
        let init = candidates.drop_last();
        assert forall|i: int, j: int| 0 <= i < j < init.len() implies (#[trigger] init[i]).id@ != (#[trigger] init[j]).id@ by {
            assert(init[i] == candidates[i] && init[j] == candidates[j]);
        }
        lemma_unseen_distinct(init, seen);
        lemma_unseen(init, seen);
        let u = unseen(candidates, seen);
        let v = unseen(init, seen);
        assert forall|i: int, j: int| 0 <= i < j < u.len() implies (#[trigger] u[i]).id@ != (#[trigger] u[j]).id@ by {
            assert(u[i] == v[i]);
            if j < v.len() {
                assert(u[j] == v[j]);
            } else {
                assert(u[j] == candidates.last());
                let k = choose|k: int| 0 <= k < init.len() && init[k] == v[i];
                assert(candidates[k] == init[k]);
                assert(candidates[candidates.len() - 1] == candidates.last());
            }
        }
    }
}

proof fn lemma_unseen(candidates: Seq<AnimePreview>, seen: Seq<Seq<char>>)
    ensures
        forall|k: int| 0 <= k < unseen(candidates, seen).len() ==> !seen.contains(
            (#[trigger] unseen(candidates, seen)[k]).id@,
        ) && candidates.contains(unseen(candidates, seen)[k]),
    decreases candidates.len(),
{
    if candidates.len() > 0 {
        let init = candidates.drop_last();
        lemma_unseen(init, seen);
        let u = unseen(candidates, seen);
        let v = unseen(init, seen);
        assert forall|k: int| 0 <= k < u.len() implies !seen.contains((#[trigger] u[k]).id@)
            && candidates.contains(u[k]) by {
            if k < v.len() {
                assert(u[k] == v[k]);
                let j = choose|j: int| 0 <= j < init.len() && init[j] == v[k];
                assert(candidates[j] == init[j]);
            } else {
                assert(u[k] == candidates.last());
                assert(candidates[candidates.len() - 1] == candidates.last());
            }
        }
    }
}

/// What every ranking satisfies: at most `limit` items, best first, none of them a seed,
/// each one a candidate, each scored against the profile of all seeds; once a third of
/// `limit` is filled, each further item shares a genre with fewer than four items ranked
/// above it; and when the candidates have distinct ids, so do the recommendations.
pub proof fn lemma_ranking_laws(
    r: Seq<RecommendationPreview>,
    liked: Seq<ScoredSeed>,
    disliked: Seq<ScoredSeed>,
    candidates: Seq<AnimePreview>,
    limit: int,
    include_reasons: bool,
)
    requires
        ranking_spec(r, liked, disliked, candidates, limit, include_reasons),
        limit >= 1,
    ensures
        r.len() <= limit,
        forall|i: int, j: int| 0 <= i < j < r.len() ==> (#[trigger] r[i]).recommendation_score >= (#[trigger] r[j]).recommendation_score,
        forall|i: int| 0 <= i < r.len() ==> !seed_ids(liked + disliked).contains((#[trigger] r[i]).preview.id@),
        forall|i: int| 0 <= i < r.len() ==> candidates.contains((#[trigger] r[i]).preview),
        forall|i: int| 0 <= i < r.len() ==> (#[trigger] r[i]).recommendation_score == candidate_score(r[i].preview, liked + disliked),
        forall|i: int| third_of(limit) <= i < r.len() ==> overlap_count(r.take(i), #[trigger] r[i]) < 4,
        (forall|i: int, j: int| 0 <= i < j < candidates.len() ==> (#[trigger] candidates[i]).id@ != (#[trigger] candidates[j]).id@)
            ==> forall|i: int, j: int| 0 <= i < j < r.len() ==> (#[trigger] r[i]).preview.id@ != (#[trigger] r[j]).preview.id@,
{
    broadcast use vstd::seq_lib::group_seq_properties;
    if liked.len() > 0 {
        let seeds = liked + disliked;
        let kept = unseen(candidates, seed_ids(seeds));
        let scored = choose|scored: Seq<RecommendationPreview>| #[trigger]
            ranked_from(r, scored, seeds, kept, limit, include_reasons);
        let sorted = sort_desc(scored, score_key());
        lemma_sort_desc(scored, score_key());
        lemma_diversify_from(sorted, limit, seq![]);
        lemma_diversify_sorted(sorted, limit, seq![]);
        lemma_diversify_pressure(sorted, limit, seq![]);
        lemma_unseen(candidates, seed_ids(seeds));
        assert forall|i: int, j: int| 0 <= i < j < r.len() implies (#[trigger] r[i]).recommendation_score >= (#[trigger] r[j]).recommendation_score by {
            assert(score_key()(r[i]) >= score_key()(r[j]));
        }
        assert forall|i: int| 0 <= i < r.len() implies {
            &&& !seed_ids(seeds).contains((#[trigger] r[i]).preview.id@)
            &&& candidates.contains(r[i].preview)
            &&& r[i].recommendation_score == candidate_score(r[i].preview, seeds)
        } by {
            assert(sorted.contains(r[i]));
            assert(sorted.to_multiset().count(r[i]) > 0);
            assert(scored.contains(r[i]));
            let k = choose|k: int| 0 <= k < scored.len() && scored[k] == r[i];
            assert(scored_spec(scored[k], kept[k], seeds, include_reasons));
            assert(r[i].preview == kept[k]);
        }
        if forall|i: int, j: int| 0 <= i < j < candidates.len() ==> (#[trigger] candidates[i]).id@ != (#[trigger] candidates[j]).id@ {
            lemma_unseen_distinct(candidates, seed_ids(seeds));
            assert(distinct_by(scored, preview_id())) by {
                assert forall|i: int, j: int| 0 <= i < j < scored.len() implies preview_id()(#[trigger] scored[i]) != preview_id()(#[trigger] scored[j]) by {
                    assert(scored_spec(scored[i], kept[i], seeds, include_reasons));
                    assert(scored_spec(scored[j], kept[j], seeds, include_reasons));
                }
            }
            lemma_sort_desc_distinct(scored, score_key(), preview_id());
            lemma_diversify_distinct(sorted, limit, seq![]);
            assert forall|i: int, j: int| 0 <= i < j < r.len() implies (#[trigger] r[i]).preview.id@ != (#[trigger] r[j]).preview.id@ by {
                assert(preview_id()(r[i]) != preview_id()(r[j]));
            }
        }
    }
}


/// Adds the feature counts of `seeds` to `total` while it stays within the limit, and
/// checks their weights.
fn seeds_total(seeds: &Vec<ScoredSeed>, start: u128, Ghost(done): Ghost<Seq<ScoredSeed>>) -> (r: Option<u128>)
    requires
        start == seed_feature_total(done),
        start <= MAX_SEED_FEATURES,
    ensures
        match r {
            Some(t) => t == seed_feature_total(done + seeds@) && t <= MAX_SEED_FEATURES
                && forall|k: int| 0 <= k < seeds@.len() ==> -30000 <= #[trigger] seeds@[k].weight <= 30000,
            None => seed_feature_total(done + seeds@) > MAX_SEED_FEATURES
                || exists|k: int| 0 <= k < seeds@.len() && !(-30000 <= #[trigger] seeds@[k].weight <= 30000),
        },
{
    let mut total: u128 = start;
    for i in 0..seeds.len()
        invariant
            total == seed_feature_total(done + seeds@.take(i as int)),
            total <= MAX_SEED_FEATURES,
            forall|k: int| 0 <= k < i ==> -30000 <= #[trigger] seeds@[k].weight <= 30000,
    {
        let s = &seeds[i];
        proof {
            lemma_metadata_features_len(s.anime);
            assert(done + seeds@.take(i + 1) =~= (done + seeds@.take(i as int)).push(seeds@[i as int]));
            lemma_feature_total_push(done + seeds@.take(i as int), seeds@[i as int]);
        }
        if !(-30000 <= s.weight && s.weight <= 30000) {
            return None;
        }
        let size: u128 = s.anime.genres.len() as u128 + 1 + if s.anime.year.is_some() { 1 } else { 0 } + s.anime.tags.len() as u128;
        if size > MAX_SEED_FEATURES as u128 - total {
            proof {
                let all = done + seeds@;
                assert((done + seeds@.take(i + 1)) =~= all.take(done.len() + i + 1));
                lemma_feature_total_prefix(all, done.len() + i + 1);
            }
            return None;
        }
        total = total + size;
    }
    assert(seeds@.take(seeds@.len() as int) =~= seeds@);
    Some(total)
}

/// Whether the seeds fit the profile's fixed-point sums.
pub fn seeds_within_limits(liked: &Vec<ScoredSeed>, disliked: &Vec<ScoredSeed>) -> (r: bool)
    ensures
        r == seeds_fit(liked@ + disliked@),
{
    let ghost all = liked@ + disliked@;
    proof {
        assert(Seq::<ScoredSeed>::empty() + liked@ =~= liked@);
    }
    match seeds_total(liked, 0, Ghost(Seq::empty())) {
        Some(t) => match seeds_total(disliked, t, Ghost(liked@)) {
            Some(_) => {
                proof {
                    assert forall|k: int| 0 <= k < all.len() implies -30000 <= #[trigger] all[k].weight <= 30000 by {
                        if k < liked@.len() {
                            assert(all[k] == liked@[k]);
                        } else {
                            assert(all[k] == disliked@[k - liked@.len()]);
                        }
                    }
                }
                true
            },
            None => {
                proof {
                    if seed_feature_total(all) <= MAX_SEED_FEATURES {
                        let k = choose|k: int| 0 <= k < disliked@.len() && !(-30000 <= #[trigger] disliked@[k].weight <= 30000);
                        assert(all[liked@.len() + k] == disliked@[k]);
                    }
                }
                false
            },
        },
        None => {
            proof {
                assert((liked@ + disliked@).take(liked@.len() as int) =~= liked@);
                lemma_feature_total_prefix(all, liked@.len() as int);
                if seed_feature_total(liked@) <= MAX_SEED_FEATURES {
                    let k = choose|k: int| 0 <= k < liked@.len() && !(-30000 <= #[trigger] liked@[k].weight <= 30000);
                    assert(all[k] == liked@[k]);
                }
            }
            false
        },
    }
}

/// Scores a candidate against a single liked seed of weight 1, with reasons.
pub fn score_preview_for_test(candidate: AnimePreview, seed: AnimeMetadata) -> (r: RecommendationPreview)
    requires
        metadata_features(seed).len() <= MAX_SEED_FEATURES,
    ensures
        scored_spec(r, candidate, seq![(ScoredSeed { anime: seed, weight: 10000 })], true),
{
    let mut liked: Vec<ScoredSeed> = Vec::new();
    liked.push(ScoredSeed { anime: seed, weight: 10000 });
    let disliked: Vec<ScoredSeed> = Vec::new();
    let ghost seeds = liked@ + disliked@;
    proof {
        assert(seeds =~= seq![(ScoredSeed { anime: seed, weight: 10000 })]);
        assert(seeds.drop_last() =~= Seq::<ScoredSeed>::empty());
        assert(seeds.last().anime == seed);
        assert(seed_feature_total(Seq::<ScoredSeed>::empty()) == 0);
        assert(seed_feature_total(seeds) == metadata_features(seed).len());
        assert(seeds[0].weight == 10000);
    }
    let profile = build_profile(&liked, &disliked);
    score_candidate(candidate, &profile, true)
}

/// The number of recommendations to return (24 by default, within [1, 50]) and the number
/// of candidates to consider (five per recommendation by default, within [limit, 200]).
pub open spec fn limits_spec(limit: Option<u32>, candidate_limit: Option<u32>) -> (int, int) {
    let l = clamp_spec(
        match limit {
            Some(v) => v as int,
            None => 24,
        },
        1,
        50,
    );
    let c = clamp_spec(
        match candidate_limit {
            Some(v) => v as int,
            None => l * 5,
        },
        l,
        200,
    );
    (l, c)
}

/// The recommendation and candidate limits of a request.
pub fn recommendation_limits(limit: Option<u32>, candidate_limit: Option<u32>) -> (r: (usize, u32))
    ensures
        r.0 as int == limits_spec(limit, candidate_limit).0,
        r.1 as int == limits_spec(limit, candidate_limit).1,
{
    let requested: u32 = match limit {
        Some(v) => v,
        None => 24,
    };
    let l: u32 = if requested < 1 {
        1
    } else if requested > 50 {
        50
    } else {
        requested
    };
    let wanted: u32 = match candidate_limit {
        Some(v) => v,
        None => l * 5,
    };
    let c: u32 = if wanted < l {
        l
    } else if wanted > 200 {
        200
    } else {
        wanted
    };
    (l as usize, c)
}

/// How many titles to take from each of the two candidate catalogs: half the candidate
/// limit, rounded up.
pub fn candidate_page_size(candidate_limit: u32) -> (r: u32)
    ensures
        r == (candidate_limit as int + 1) / 2,
{
    candidate_limit / 2 + candidate_limit % 2
}

/// A seed title to look up: its position among the liked or the disliked seeds.
#[derive(Debug, Clone, Copy, PartialEq, Eq)]
pub struct SeedLookup {
    /// The position of the seed in its list.
    pub index: usize,
    /// Whether the seed is liked (else disliked).
    pub liked: bool,
}

/// The lookups of the seeds that name a title, in order.
pub open spec fn lookups_from(seeds: Seq<RecommendationSeed>, liked: bool) -> Seq<SeedLookup>
    decreases seeds.len(),
{
    if seeds.len() == 0 {
        seq![]
    } else {
        lookups_from(seeds.drop_last(), liked) + if seeds.last().anime_id@.len() > 0 {
            seq![SeedLookup { index: (seeds.len() - 1) as usize, liked }]
        } else {
            Seq::<SeedLookup>::empty()
        }
    }
}

/// Whether some liked seed names a title: without one there is nothing to recommend.
pub open spec fn names_liked(request: RecommendationRequest) -> bool {
    exists|i: int| 0 <= i < request.liked@.len() && (#[trigger] request.liked@[i]).anime_id@.len() > 0
}

/// What a recommendation request asks for, once its defaults are applied.
#[derive(Debug, Clone, PartialEq)]
pub struct RecommendationPlan {
    /// How many recommendations to return.
    pub limit: usize,
    /// How many candidates to consider.
    pub candidate_limit: u32,
    /// How many titles to take from each of the trending and popular catalogs.
    pub page_size: u32,
    /// Whether to explain each recommendation (yes by default).
    pub include_reasons: bool,
    /// The seed titles to look up: the liked ones, then the disliked ones, skipping
    /// seeds with an empty id.
    pub lookups: Vec<SeedLookup>,
    /// Whether to fetch candidates at all: only when a liked seed names a title.
    pub fetch_candidates: bool,
}

/// Appends the lookups of `seeds` to `out`.
fn push_lookups(out: &mut Vec<SeedLookup>, seeds: &Vec<RecommendationSeed>, liked: bool) -> (any: bool)
    ensures
        final(out)@ == old(out)@ + lookups_from(seeds@, liked),
        any == exists|i: int| 0 <= i < seeds@.len() && (#[trigger] seeds@[i]).anime_id@.len() > 0,
{
    let ghost start = out@;
    let mut any = false;
    for i in 0..seeds.len()
        invariant
            out@ == start + lookups_from(seeds@.take(i as int), liked),
            any == exists|k: int| 0 <= k < i && (#[trigger] seeds@[k]).anime_id@.len() > 0,
    {
        proof {
            assert(seeds@.take(i + 1).drop_last() =~= seeds@.take(i as int));
            assert(seeds@.take(i + 1).last() == seeds@[i as int]);
        }
        if seed_has_id(&seeds[i]) {
            out.push(SeedLookup { index: i, liked });
            any = true;
        }
        proof {
            let t = seeds@.take(i + 1);
            assert(lookups_from(t, liked) == lookups_from(seeds@.take(i as int), liked) + if t.last().anime_id@.len() > 0 {
                seq![SeedLookup { index: (t.len() - 1) as usize, liked }]
            } else {
                Seq::<SeedLookup>::empty()
            });
            assert(out@ =~= start + lookups_from(t, liked));
        }
    }
    assert(seeds@.take(seeds@.len() as int) =~= seeds@);
    any
}

/// The plan of a recommendation request.
pub fn recommendation_plan(request: &RecommendationRequest) -> (r: RecommendationPlan)
    ensures
        r.limit as int == limits_spec(request.limit, request.candidate_limit).0,
        r.candidate_limit as int == limits_spec(request.limit, request.candidate_limit).1,
        r.page_size == (r.candidate_limit as int + 1) / 2,
        r.include_reasons == match request.include_reasons {
            Some(b) => b,
            None => true,
        },
        r.lookups@ == lookups_from(request.liked@, true) + lookups_from(request.disliked@, false),
        r.fetch_candidates == names_liked(*request),
{
    let (limit, candidate_limit) = recommendation_limits(request.limit, request.candidate_limit);
    let mut lookups: Vec<SeedLookup> = Vec::new();
    let any_liked = push_lookups(&mut lookups, &request.liked, true);
    push_lookups(&mut lookups, &request.disliked, false);
    RecommendationPlan {
        limit,
        candidate_limit,
        page_size: candidate_page_size(candidate_limit),
        include_reasons: match request.include_reasons {
            Some(b) => b,
            None => true,
        },
        lookups,
        fetch_candidates: any_liked,
    }
}

/// Whether a seed names a title (an empty id is skipped).
pub fn seed_has_id(seed: &RecommendationSeed) -> (r: bool)
    ensures
        r == (seed.anime_id@.len() > 0),
{
    seed.anime_id.as_str().unicode_len() > 0
}

} // verus!
