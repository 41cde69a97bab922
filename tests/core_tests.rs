use digrag::index::vector::VectorIndex;
use digrag::embedding::{batch_ranges, create_embedding_text};
use digrag::extract::cache::{CachedSummary, SummaryCache};
use digrag::search::fusion::group_ranks;
use digrag::loader::changelog::ChangelogLoader;
use digrag::extract::cache::LruCache;
use digrag::index::bm25::{bm25_term, Bm25Term};
use digrag::index::{Bm25Index, DocHashes, Docstore, IncrementalDiff, IndexMetadata};
use digrag::loader::{Document, Timestamp};
use digrag::search::fusion::FusedHit;
use digrag::search::searcher::{hybrid_depth, tag_filter};
use digrag::search::ReciprocalRankFusion;

const DAY: i64 = 86_400_000;

fn at(millis: i64) -> Timestamp {
    Timestamp { millis }
}

fn create_test_doc(id: &str, title: &str, tags: Vec<&str>, days_ago: i64) -> Document {
    Document::with_id(
        id.to_string(),
        title.to_string(),
        at(1_736_935_200_000 - days_ago * DAY),
        tags.into_iter().map(|t| t.to_string()).collect(),
        format!("Content of {}", title),
    )
}

fn titled(title: &str) -> Document {
    Document::new(title.to_string(), at(1_736_935_200_000), vec![], "Content".to_string())
}

fn strings(v: &[&str]) -> Vec<String> {
    v.iter().map(|s| s.to_string()).collect()
}

fn score(k: u32, hit: &FusedHit) -> f64 {
    let part = |r: Option<usize>| r.map(|r| 1.0 / (k as f64 + r as f64)).unwrap_or(0.0);
    part(hit.first_rank) + part(hit.second_rank)
}

// Content hash

#[test]
fn content_hash_is_sixteen_hex_digits_of_sha256() {
    let h = Document::compute_content_hash("Title", "Text");
    assert_eq!(h, "d7937c5bc5ab03f7");
    assert_eq!(h.len(), 16);
}

#[test]
fn content_hash_is_deterministic_and_ignores_metadata() {
    let a = Document::with_content_id("Title".to_string(), at(0), vec!["memo".to_string()], "Text".to_string());
    let b = Document::with_content_id("Title".to_string(), at(5 * DAY), vec![], "Text".to_string());
    assert_eq!(a.id, b.id);
    assert_eq!(a.content_hash(), b.content_hash());
    assert_eq!(a.id, Document::compute_content_hash("Title", "Text"));
}

#[test]
fn content_hash_changes_with_title_or_text() {
    let base = Document::compute_content_hash("Title", "Text");
    assert_ne!(base, Document::compute_content_hash("Title2", "Text"));
    assert_ne!(base, Document::compute_content_hash("Title", "Text2"));
    assert_ne!(Document::compute_content_hash("ab", "c"), Document::compute_content_hash("a", "bc"));
}

#[test]
fn cache_key_is_full_sha256_hex() {
    let key = LruCache::<String>::generate_key("content", "model");
    assert_eq!(key, "4907db8b4b4b4ad6a5c4aebfce1ddddcb966b4f8deb88133ecf93e19a7d028d1");
}

#[test]
fn random_ids_differ() {
    let a = titled("x");
    let b = titled("x");
    assert_ne!(a.id, b.id);
}

// Categories

#[test]
fn test_category_with_hierarchy() {
    assert_eq!(titled("Editor Tools / hookタイミング").category(), Some("Editor Tools"));
}

#[test]
fn test_category_without_hierarchy() {
    assert_eq!(titled("単一カテゴリ").category(), Some("単一カテゴリ"));
}

#[test]
fn test_category_empty_title() {
    assert_eq!(titled("").category(), None);
}

#[test]
fn test_subcategory_with_hierarchy() {
    assert_eq!(titled("Editor Tools / hookタイミング").subcategory(), Some("hookタイミング"));
}

#[test]
fn test_subcategory_without_hierarchy() {
    assert_eq!(titled("単一カテゴリ").subcategory(), None);
}

#[test]
fn test_subcategory_multiple_levels() {
    assert_eq!(titled("カテゴリ / サブカテゴリ / 詳細").subcategory(), Some("サブカテゴリ"));
}

#[test]
fn test_document_has_tag() {
    let doc = create_test_doc("d", "T", vec!["memo", "dev"], 0);
    assert!(doc.has_tag("memo"));
    assert!(doc.has_tag("dev"));
    assert!(!doc.has_tag("tips"));
}

// Incremental diff

fn hashes(pairs: &[(&str, &str)]) -> DocHashes {
    let mut h = DocHashes::new();
    for (k, v) in pairs {
        h.insert(k.to_string(), v.to_string());
    }
    h
}

#[test]
fn test_empty_diff() {
    let diff = IncrementalDiff::compute(vec![], &DocHashes::new());
    assert!(!diff.has_changes());
}

#[test]
fn test_all_new() {
    let docs = vec![Document::with_content_id("Title".to_string(), at(0), vec![], "Text".to_string())];
    let diff = IncrementalDiff::compute(docs, &DocHashes::new());
    assert_eq!(diff.added_count(), 1);
    assert!(diff.has_changes());
}

#[test]
fn diff_example_added_and_unchanged() {
    let a = Document::with_id("a".to_string(), "A".to_string(), at(0), vec![], "x".to_string());
    let b = Document::with_id("b".to_string(), "B".to_string(), at(0), vec![], "y".to_string());
    let existing = hashes(&[("a", &a.content_hash())]);
    let diff = IncrementalDiff::compute(vec![a, b], &existing);
    assert_eq!(diff.added.iter().map(|d| d.id.clone()).collect::<Vec<_>>(), vec!["b"]);
    assert_eq!(diff.unchanged, vec!["a"]);
    assert!(diff.removed.is_empty());
    assert!(diff.modified.is_empty());
    assert_eq!(diff.embeddings_needed(), 1);
}

#[test]
fn diff_classifies_every_id_once() {
    let a = Document::with_id("a".to_string(), "A".to_string(), at(0), vec![], "x".to_string());
    let m = Document::with_id("m".to_string(), "M".to_string(), at(0), vec![], "new".to_string());
    let n = Document::with_id("n".to_string(), "N".to_string(), at(0), vec![], "z".to_string());
    let existing = hashes(&[("a", &a.content_hash()), ("m", "0000000000000000"), ("gone", "h")]);
    let diff = IncrementalDiff::compute(vec![a, m, n], &existing);
    assert_eq!(diff.added_count(), 1);
    assert_eq!(diff.modified_count(), 1);
    assert_eq!(diff.unchanged_count(), 1);
    assert_eq!(diff.removed, vec!["gone"]);
    assert_eq!(diff.modified[0].id, "m");
    assert_eq!(diff.needs_embedding().len(), 2);
    assert!(diff.has_changes());
}

// Metadata version gate

fn with_version(v: &str) -> IndexMetadata {
    let mut m = IndexMetadata::new(0, None);
    m.schema_version = v.to_string();
    m
}

#[test]
fn schema_versions_below_two_rebuild() {
    for v in ["", "1.0", "1.99", "0", "abc", "-3", "1.9.9", ".", "19e-1", "-inf", "1e", "e1", "2e+", "0e5", "5e-99999999999999999999999999", "-2.0", "infin"] {
        assert!(with_version(v).needs_full_rebuild(), "{}", v);
    }
    for v in ["2.0", "2", "2.5", "10", "+3.0", "02.0", "1e1", "2E0", "3e-0", "0.2e1", "200e-2", "inf", "+Infinity", "NaN", "-nan", "1e99999999999999999999999999"] {
        assert!(!with_version(v).needs_full_rebuild(), "{}", v);
    }
}

// BM25

fn corpus() -> Bm25Index {
    let ids = strings(&["doc1", "doc2", "doc3", "doc4", "doc5"]);
    let toks = vec![
        strings(&["mcp", "サーバー", "実装", "mcp", "rust", "実装"]),
        strings(&["python", "ウェブ", "開発"]),
        strings(&["rust", "基本", "プログラミング"]),
        strings(&["機械", "学習", "ニューラル"]),
        strings(&["データベース", "設計", "postgresql"]),
    ];
    Bm25Index::from_corpus(ids, toks).unwrap()
}

#[test]
fn test_bm25_index_creation() {
    let index = Bm25Index::new();
    assert!(index.is_empty());
}

#[test]
fn bm25_candidates_hold_query_tokens() {
    let index = corpus();
    assert_eq!(index.len(), 5);
    assert_eq!(index.total_length(), 18);
    let c = index.candidates(&strings(&["mcp"]));
    assert_eq!(c.len(), 1);
    assert_eq!(index.doc_id(c[0].doc_index), "doc1");
    assert_eq!(c[0].terms, vec![bm25_term(2, 1, 6, 18, 5)]);
    let c = index.candidates(&strings(&["rust"]));
    assert_eq!(c.iter().map(|c| c.doc_index).collect::<Vec<_>>(), vec![0, 2]);
}

#[test]
fn bm25_term_formula() {
    let t = bm25_term(2, 1, 6, 18, 5);
    assert_eq!(
        t,
        Bm25Term { idf_num: 12, idf_den: 3, tf_num: 44 * 2 * 18, tf_den: 20 * 2 * 18 + 6 * 18 + 18 * 6 * 5 }
    );
}

#[test]
fn bm25_empty_query_and_corpus() {
    assert!(corpus().candidates(&vec![]).is_empty());
    assert!(Bm25Index::new().candidates(&strings(&["mcp"])).is_empty());
    assert!(corpus().candidates(&strings(&["nothing"])).is_empty());
}

#[test]
fn bm25_tf_factor_grows_with_tf() {
    let a = bm25_term(1, 1, 6, 18, 5);
    let b = bm25_term(2, 1, 6, 18, 5);
    assert!(a.tf_num * b.tf_den <= b.tf_num * a.tf_den);
}

#[test]
fn bm25_from_corpus_rejects_mismatch_and_round_trips() {
    assert!(Bm25Index::from_corpus(strings(&["a"]), vec![]).is_none());
    let index = corpus();
    let again = Bm25Index::from_corpus(index.doc_ids().clone(), index.doc_tokens().clone()).unwrap();
    let q = strings(&["rust", "mcp"]);
    let a = index.candidates(&q);
    let b = again.candidates(&q);
    assert_eq!(a.len(), b.len());
    for (x, y) in a.iter().zip(b.iter()) {
        assert_eq!(x.doc_index, y.doc_index);
        assert_eq!(x.terms, y.terms);
    }
}

// Fusion

#[test]
fn test_rrf_creation() {
    assert_eq!(ReciprocalRankFusion::new().k, 60);
}

#[test]
fn test_rrf_custom_k() {
    assert_eq!(ReciprocalRankFusion::with_k(30).k, 30);
}

#[test]
fn test_rrf_fusion_basic() {
    let rrf = ReciprocalRankFusion::new();
    let fused = rrf.fuse(&strings(&["doc1", "doc2", "doc3"]), &strings(&["doc2", "doc1", "doc4"]));
    let s = |id: &str| score(60, fused.iter().find(|h| h.doc_id == id).unwrap());
    assert!(s("doc1") > s("doc3"));
    assert!(s("doc2") > s("doc4"));
    assert_eq!(fused.len(), 4);
}

#[test]
fn test_rrf_fusion_empty() {
    assert!(ReciprocalRankFusion::new().fuse(&[], &[]).is_empty());
}

#[test]
fn test_rrf_score_calculation() {
    let fused = ReciprocalRankFusion::with_k(60).fuse(&strings(&["doc1"]), &[]);
    assert!((score(60, &fused[0]) - 1.0 / 61.0).abs() < 1e-9);
}

#[test]
fn rrf_example_one_and_two() {
    let fused = ReciprocalRankFusion::with_k(60).fuse(&strings(&["X", "Y"]), &strings(&["Z", "X"]));
    assert_eq!(fused[0].doc_id, "X");
    assert_eq!(fused[0].first_rank, Some(1));
    assert_eq!(fused[0].second_rank, Some(2));
    assert!((score(60, &fused[0]) - (1.0 / 61.0 + 1.0 / 62.0)).abs() < 1e-12);
    assert!((score(60, &fused[0]) - 0.03253).abs() < 1e-5);
}

#[test]
fn rrf_with_empty_second_list_keeps_first_order() {
    let first = strings(&["c", "a", "b"]);
    let fused = ReciprocalRankFusion::new().fuse(&first, &[]);
    assert_eq!(fused.iter().map(|h| h.doc_id.clone()).collect::<Vec<_>>(), first);
}

#[test]
fn rrf_ties_keep_first_seen_order() {
    let fused = ReciprocalRankFusion::new().fuse(&strings(&["a"]), &strings(&["b"]));
    assert_eq!(fused[0].doc_id, "a");
    assert_eq!(fused[1].doc_id, "b");
}

// Docstore

#[test]
fn test_docstore_creation() {
    assert!(Docstore::new().is_empty());
}

#[test]
fn test_add_and_get() {
    let mut store = Docstore::new();
    store.add(create_test_doc("doc1", "Test", vec!["memo"], 0));
    let retrieved = store.get("doc1");
    assert!(retrieved.is_some());
    assert_eq!(retrieved.unwrap().title(), "Test");
}

#[test]
fn test_contains() {
    let mut store = Docstore::new();
    store.add(create_test_doc("doc1", "Test", vec!["memo"], 0));
    assert!(store.contains("doc1"));
    assert!(!store.contains("doc2"));
}

#[test]
fn test_get_by_tag() {
    let mut store = Docstore::new();
    store.add(create_test_doc("doc1", "Test 1", vec!["memo"], 0));
    store.add(create_test_doc("doc2", "Test 2", vec!["worklog"], 0));
    store.add(create_test_doc("doc3", "Test 3", vec!["memo", "worklog"], 0));
    assert_eq!(store.get_by_tag("memo").len(), 2);
    assert_eq!(store.get_by_tag("worklog").len(), 2);
}

#[test]
fn test_get_all_tags() {
    let mut store = Docstore::new();
    store.add(create_test_doc("doc1", "Test 1", vec!["memo", "tips"], 0));
    store.add(create_test_doc("doc2", "Test 2", vec!["worklog", "memo"], 0));
    assert_eq!(store.get_all_tags(), strings(&["memo", "tips", "worklog"]));
}

#[test]
fn test_get_recent() {
    let mut store = Docstore::new();
    store.add(create_test_doc("doc1", "Oldest", vec!["memo"], 10));
    store.add(create_test_doc("doc2", "Middle", vec!["memo"], 5));
    store.add(create_test_doc("doc3", "Newest", vec!["memo"], 0));
    let recent = store.get_recent(2);
    assert_eq!(recent.len(), 2);
    assert_eq!(recent[0].title(), "Newest");
    assert_eq!(recent[1].title(), "Middle");
}

#[test]
fn docstore_add_replaces_and_removes() {
    let mut store = Docstore::new();
    store.add(create_test_doc("doc1", "First", vec![], 0));
    store.add(create_test_doc("doc1", "Second", vec![], 0));
    assert_eq!(store.len(), 1);
    assert_eq!(store.get("doc1").unwrap().title(), "Second");
    store.add(create_test_doc("doc2", "Other", vec![], 0));
    store.add(create_test_doc("doc3", "Third", vec![], 0));
    store.remove("doc1");
    store.remove("missing");
    assert_eq!(store.len(), 2);
    store.remove_batch(&strings(&["doc2", "nope"]));
    assert_eq!(store.len(), 1);
    assert!(store.contains("doc3"));
}

// Searcher decisions

#[test]
fn tag_filter_keeps_tagged_in_rank_order() {
    let mut store = Docstore::new();
    store.add(create_test_doc("a", "A", vec!["memo"], 0));
    store.add(create_test_doc("b", "B", vec!["dev"], 0));
    store.add(create_test_doc("c", "C", vec!["memo"], 0));
    let ranked = strings(&["c", "b", "x", "a"]);
    assert_eq!(tag_filter(&store, &ranked, "memo", 10), vec![0, 3]);
    assert_eq!(tag_filter(&store, &ranked, "memo", 1), vec![0]);
    assert!(tag_filter(&store, &ranked, "none", 10).is_empty());
}

#[test]
fn hybrid_fetches_twice_as_deep() {
    assert_eq!(hybrid_depth(5), 10);
    assert_eq!(hybrid_depth(usize::MAX), usize::MAX);
}

// Changelog loader

#[test]
fn test_parse_single_entry() {
    let loader = ChangelogLoader::new();
    let docs = loader.load_from_string("* Test Entry 2025-01-15 10:00:00 [memo]:[worklog]:\n・Content line");
    assert_eq!(docs.len(), 1);
    let doc = &docs[0];
    assert_eq!(doc.title(), "Test Entry");
    assert_eq!(doc.tags(), &["memo", "worklog"]);
    assert_eq!(doc.text, "・Content line");
    assert_eq!(doc.id, Document::compute_content_hash("Test Entry", "・Content line"));
}

#[test]
fn test_parse_multiple_entries() {
    let loader = ChangelogLoader::new();
    let content = "* First Entry 2025-01-15 10:00:00 [memo]:\nFirst content\n* Second Entry 2025-01-14 09:00:00 [worklog]:\nSecond content";
    let docs = loader.load_from_string(content);
    assert_eq!(docs.len(), 2);
    assert_eq!(docs[0].title(), "First Entry");
    assert_eq!(docs[0].tags(), &["memo"]);
    assert_eq!(docs[1].title(), "Second Entry");
    assert_eq!(docs[1].tags(), &["worklog"]);
    assert_eq!(docs[0].text, "First content");
}

#[test]
fn test_parse_multiline_content() {
    let loader = ChangelogLoader::new();
    let content = "* Entry 2025-01-15 10:00:00 [memo]:\n・First line\n\t・Second line (indented)\n\t\t・Third line (double indented)\n\n";
    let docs = loader.load_from_string(content);
    assert_eq!(docs.len(), 1);
    assert_eq!(docs[0].text, "・First line\n\t・Second line (indented)\n\t\t・Third line (double indented)");
}

#[test]
fn test_parse_no_tags() {
    let docs = ChangelogLoader::new().load_from_string("* Entry Without Tags 2025-01-15 10:00:00 \nContent");
    assert_eq!(docs.len(), 1);
    assert!(docs[0].tags().is_empty());
    assert_eq!(docs[0].title(), "Entry Without Tags");
}

#[test]
fn test_parse_empty_content() {
    assert!(ChangelogLoader::new().load_from_string("").is_empty());
}

#[test]
fn test_date_parsing() {
    let docs = ChangelogLoader::new().load_from_string("* Entry 2025-01-15 14:30:45 [memo]:\nContent");
    assert_eq!(docs.len(), 1);
    assert_eq!(docs[0].date(), Timestamp { millis: 1736951445000 });
}

#[test]
fn loader_skips_impossible_dates_and_preamble() {
    let content = "preamble\n* Bad 2025-02-30 10:00:00 [memo]:\nx\r\n* Leap 2024-02-29 00:00:00 [a]:[b]\r\nbody\r\n";
    let docs = ChangelogLoader::new().load_from_string(content);
    assert_eq!(docs.len(), 1);
    assert_eq!(docs[0].title(), "Leap");
    assert_eq!(docs[0].date(), Timestamp { millis: 1709164800000 });
    assert_eq!(docs[0].tags(), &["a"]);
    assert_eq!(docs[0].text, "body");
}

#[test]
fn loader_title_is_shortest_before_datetime() {
    let docs = ChangelogLoader::new().load_from_string("* A 2020-01-01 00:00:00 B 2021-01-01 00:00:00 [t]:\n");
    assert_eq!(docs[0].title(), "A");
    assert_eq!(docs[0].tags(), &["t"]);
}

#[test]
fn leap_second_reads_as_next_minute() {
    let docs = ChangelogLoader::new().load_from_string("* Entry 2025-01-15 10:30:60 [memo]:\nContent\n* Bad 2025-01-15 10:30:61 [memo]:\nx");
    assert_eq!(docs.len(), 1);
    assert_eq!(docs[0].date(), Timestamp { millis: 1736937060000 });
}

#[test]
fn group_ranks_keeps_every_rank() {
    let g = group_ranks(&strings(&["a", "b", "a"]), &strings(&["c", "a"]));
    assert_eq!(g.iter().map(|h| h.doc_id.clone()).collect::<Vec<_>>(), vec!["a", "b", "c"]);
    assert_eq!(g[0].first_ranks, vec![1, 3]);
    assert_eq!(g[0].second_ranks, vec![2]);
    assert_eq!(g[1].first_ranks, vec![2]);
    assert!(g[1].second_ranks.is_empty());
    assert_eq!(g[2].second_ranks, vec![1]);
    assert!(group_ranks(&[], &[]).is_empty());
}

#[test]
fn embedding_text_and_batches() {
    let d = create_test_doc("d", "Title", vec!["memo", "dev"], 0);
    assert_eq!(create_embedding_text(&d), "# Title\nタグ: memo, dev\n\nContent of Title");
    let e = create_test_doc("e", "T", vec![], 0);
    assert_eq!(create_embedding_text(&e), "# T\n\nContent of T");
    assert_eq!(batch_ranges(25, 10), vec![(0, 10), (10, 20), (20, 25)]);
    assert_eq!(batch_ranges(20, 10), vec![(0, 10), (10, 20)]);
    assert!(batch_ranges(0, 10).is_empty());
}

#[test]
fn summary_lookup_returns_stored_summary() {
    let mut cache = SummaryCache::for_summaries();
    let s = CachedSummary { text: "t".to_string(), model: "m".to_string(), tokens_used: Some(7) };
    cache.cache_summary("c", "m", s.duplicate());
    let got = cache.get_summary_at("c", "m", 0).unwrap();
    assert_eq!(got.text, "t");
    assert_eq!(got.model, "m");
    assert_eq!(got.tokens_used, Some(7));
    assert!(cache.get_summary_at("c", "m", u128::MAX).is_none());
    assert_eq!(cache.stats().expirations, 1);
}

#[test]
fn vector_index_keeps_ids_and_vectors_in_step() {
    let mut v: VectorIndex<f32> = VectorIndex::new(0);
    assert!(v.is_empty());
    v.add("a".to_string(), vec![1.0, 0.0]);
    assert_eq!(v.dimension(), 2);
    v.add("b".to_string(), vec![0.0, 1.0]);
    v.add("c".to_string(), vec![1.0, 1.0]);
    v.remove("b");
    v.remove("missing");
    assert_eq!(v.doc_ids(), &strings(&["a", "c"]));
    assert_eq!(v.vectors(), &vec![vec![1.0, 0.0], vec![1.0, 1.0]]);
    v.remove_batch(&strings(&["a", "x"]));
    assert_eq!(v.doc_ids(), &strings(&["c"]));
    assert_eq!(v.len(), 1);
    let fixed: VectorIndex<f32> = VectorIndex::new(3);
    assert_eq!(fixed.dimension(), 3);
}

#[test]
fn bm25_postings_and_frequencies() {
    let index = corpus();
    assert_eq!(index.postings("mcp"), vec![(0, 2)]);
    assert_eq!(index.postings("rust"), vec![(0, 1), (2, 1)]);
    assert!(index.postings("none").is_empty());
    assert_eq!(index.document_frequency("rust"), 2);
    assert_eq!(index.term_frequency(0, "実装"), 2);
}
