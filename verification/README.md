# Typenx AniList addon

The Typenx metadata addon for AniList: catalogs, search, full title metadata and
like/dislike recommendations, answered from AniList's GraphQL API.

- `src/` is the verified library (Verus): the protocol types, the mapping of AniList
  records onto them, the choice of GraphQL query for each request and the judging of
  replies, the manifest, and the recommender (taste profile, fixed-point scoring,
  best-first ordering and diversity). Scores and weights are carried in fixed point:
  community scores in tenths, weights and recommendation scores in ten-thousandths,
  with sums sized so that no request a machine can hold overflows them.
- `app/` is the HTTP server (axum) and the AniList HTTP client (reqwest); it converts
  between JSON and the library's types.
- `tests/` exercises the library on concrete values.
