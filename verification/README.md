# code_graph_search

Full-text and fuzzy name search over a code graph, verified with Verus.

The library decides; it does not touch a database. A search is a value that asks one question at
a time and goes on with the answer until it knows the result:

```rust
let mut search = fts5_search("db.execute", 20);
while let Some(request) = search.request() {
    search = search.resume(answer(request));
}
let found = search.into_result();
```

- `src/search.rs`, `src/index.rs`: full-text search, and what it finds for a given index.
- `src/outcome.rs`, `src/guarantees.rs`, `src/reorder.rs`: the proof that a search finds that, and
  what holds of every search.
- `src/fuzzy.rs`, `src/suggestions.rs`: name search, with typo correction.
- `src/terms.rs`, `src/runs.rs`, `src/classes.rs`, `src/order.rs`: from a raw query to terms.
- `src/bytes.rs`, `src/permutation.rs`: the order of texts byte by byte, and reordered sequences.
- `src/sql.rs`, `src/like.rs`: statements, MATCH expressions and LIKE patterns.
- `src/distance.rs`, `src/text.rs`, `src/result.rs`: edit distance, texts, results.
- `app/`: runs searches on a SQLite database.

BM25 values are the bits of IEEE 754 doubles; the library only changes their sign.
