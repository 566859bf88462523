use similarity_engine::github::{PullRequestDetails, WorkflowRun};
use similarity_engine::text_index::{
    extract_files_from_diff, should_load, IndexDocument, IndexError, PRSearchIndex, SearchResult,
};

fn run(conclusion: Option<&str>) -> WorkflowRun {
    WorkflowRun {
        id: "1".to_string(),
        name: "ci".to_string(),
        status: "completed".to_string(),
        conclusion: conclusion.map(|c| c.to_string()),
        html_url: "https://example.test/run/1".to_string(),
        logs_url: None,
        head_sha: "abc".to_string(),
    }
}

fn details(number: u64, title: &str, description: &str, files: &[&str]) -> PullRequestDetails {
    let mut diff = String::new();
    for f in files {
        diff.push_str(&format!("diff --git a/{f} b/{f}\nindex 1..2 100644\n--- a/{f}\n+++ b/{f}\n@@ -1 +1 @@\n-old\n+new\n"));
    }
    PullRequestDetails {
        number,
        title: title.to_string(),
        description: description.to_string(),
        comments: vec![],
        state: "closed".to_string(),
        mergeable: Some(true),
        merged: true,
        workflows: vec![run(Some("success"))],
        commits: vec![],
        diff,
    }
}

#[test]
fn files_come_from_section_headers() {
    let diff = "diff --git a/src/a.rs b/src/a.rs\r\nindex 0..1\n+++ b/src/a.rs\ndiff --git a/x b/y b/z\ndiff --git a/only\n diff --git a/q b/q\ndiff --git a/last b/last";
    assert_eq!(extract_files_from_diff(diff), vec!["src/a.rs", "y", "last"]);
    assert!(extract_files_from_diff("").is_empty());
    assert!(extract_files_from_diff("no sections here\n").is_empty());
}

#[test]
fn document_of_details() {
    let mut pr = details(4711, "Fix login", "Users could not log in", &["src/auth.rs", "README.md"]);
    pr.workflows = vec![run(Some("success")), run(Some("failure")), run(None)];
    let doc = IndexDocument::from_details(&pr);
    assert_eq!(doc.pr_number, "4711");
    assert_eq!(doc.title, "Fix login");
    assert_eq!(doc.description, "Users could not log in");
    assert_eq!(doc.status, "closed");
    assert_eq!(doc.checks_status, "some_failed");
    assert_eq!(doc.files, "src/auth.rs\nREADME.md");
    assert_eq!(doc.diff, pr.diff);
}

#[test]
fn stored_fields_read_back() {
    let r = SearchResult::from_stored(
        &"18446744073709551615".to_string(),
        "t".to_string(),
        "closed".to_string(),
        "incomplete".to_string(),
        &"a\nb\n".to_string(),
        7,
    )
    .unwrap();
    assert_eq!(r.pr_number, u64::MAX);
    assert_eq!(r.files, vec!["a", "b", ""]);
    assert_eq!(r.score_bits, 7);
    assert_eq!(r.title, "t");
    let plus = SearchResult::from_stored(&"+12".to_string(), String::new(), String::new(), String::new(), &String::new(), 0).unwrap();
    assert_eq!(plus.pr_number, 12);
    assert!(plus.files.is_empty());
    for bad in ["", "+", "18446744073709551616", "12a", "-1", " 1"] {
        assert!(SearchResult::from_stored(&bad.to_string(), String::new(), String::new(), String::new(), &String::new(), 0).is_none());
    }
}

#[test]
fn load_decision() {
    assert!(should_load(true, 10));
    assert!(should_load(false, 0));
    assert!(!should_load(false, 3));
}

#[test]
fn uncommitted_documents_are_invisible() {
    let mut index = PRSearchIndex::in_memory().unwrap();
    assert!(index.is_empty().unwrap());
    index.index_pr(&details(1, "Add cache", "cache layer for tokens", &["src/cache.rs"])).unwrap();
    index.index_pr(&details(2, "Cache eviction", "evict stale cache entries", &["src/evict.rs"])).unwrap();
    assert!(index.is_empty().unwrap());
    assert!(index.search("cache", 10).unwrap().is_empty());
    index.commit().unwrap();
    assert_eq!(index.visible_count().unwrap(), 2);
    let hits = index.search("cache", 10).unwrap();
    assert_eq!(hits.len(), 2);
    assert!(index.search("cache", 1).unwrap().len() == 1);
    assert!(index.search("cache", 0).unwrap().is_empty());
}

#[test]
fn stored_fields_round_trip_through_the_index() {
    let mut index = PRSearchIndex::in_memory().unwrap();
    let mut pr = details(987654321, "Retry uploads", "retry failed uploads with backoff", &["src/upload.rs", "src/retry.rs"]);
    pr.workflows = vec![run(Some("success")), run(Some("skipped"))];
    index.index_pr(&pr).unwrap();
    index.commit().unwrap();
    let hits = index.search("backoff", 5).unwrap();
    assert_eq!(hits.len(), 1);
    let hit = &hits[0];
    assert_eq!(hit.pr_number, 987654321);
    assert_eq!(hit.title, "Retry uploads");
    assert_eq!(hit.status, "closed");
    assert_eq!(hit.checks_status, "incomplete");
    assert_eq!(hit.files, vec!["src/upload.rs", "src/retry.rs"]);
    assert!(f32::from_bits(hit.score_bits) > 0.0);
}

#[test]
fn empty_or_unknown_query_finds_nothing() {
    let mut index = PRSearchIndex::in_memory().unwrap();
    index.index_pr(&details(3, "Docs", "improve documentation", &["README.md"])).unwrap();
    index.commit().unwrap();
    assert!(index.search("", 5).unwrap().is_empty());
    assert!(index.search("zeppelin", 5).unwrap().is_empty());
}

#[test]
fn malformed_query_is_a_query_error() {
    let index = PRSearchIndex::in_memory().unwrap();
    assert!(matches!(index.search("title:(", 5), Err(IndexError::Query(_))));
}

#[test]
fn forced_refresh_replaces_everything() {
    let mut index = PRSearchIndex::in_memory().unwrap();
    assert!(index.prepare_load(false).unwrap());
    let mut unmerged = details(5, "Abandoned", "widget rewrite", &["w.rs"]);
    unmerged.merged = false;
    let added = index.load_details(&vec![details(4, "Widget", "widget support", &["w.rs"]), unmerged]).unwrap();
    assert_eq!(added, 1);
    assert_eq!(index.visible_count().unwrap(), 1);
    assert!(!index.prepare_load(false).unwrap());
    assert!(index.prepare_load(true).unwrap());
    let added = index.load_details(&vec![details(6, "Gadget", "gadget support", &["g.rs"])]).unwrap();
    assert_eq!(added, 1);
    assert_eq!(index.visible_count().unwrap(), 1);
    assert!(index.search("widget", 5).unwrap().is_empty());
    assert_eq!(index.search("gadget", 5).unwrap()[0].pr_number, 6);
}

#[test]
fn schema_fields_and_options() {
    let schema = PRSearchIndex::schema();
    let fields: Vec<(String, bool, bool)> = schema
        .fields()
        .map(|(_, entry)| (entry.name().to_string(), entry.is_indexed(), entry.is_stored()))
        .collect();
    let expected = vec![
        ("pr_number", false, true),
        ("title", true, true),
        ("description", true, false),
        ("status", false, true),
        ("checks_status", false, true),
        ("files", true, true),
        ("diff", true, false),
    ];
    let expected: Vec<(String, bool, bool)> = expected.into_iter().map(|(n, i, s)| (n.to_string(), i, s)).collect();
    assert_eq!(fields, expected);
}

#[test]
fn index_with_another_schema_is_refused() {
    let mut builder = tantivy::schema::Schema::builder();
    builder.add_text_field("title", tantivy::schema::TEXT);
    let index = tantivy::Index::create_in_ram(builder.build());
    assert!(matches!(PRSearchIndex::from_index(index), Err(IndexError::Lookup(_))));
}

#[test]
fn unknown_field_query_is_a_query_error() {
    let mut index = PRSearchIndex::in_memory().unwrap();
    index.index_pr(&details(8, "Fix", "something", &["a.rs"])).unwrap();
    index.commit().unwrap();
    assert!(matches!(index.search("nosuchfield:x", 3), Err(IndexError::Query(_))));
    assert_eq!(index.visible_count().unwrap(), 1);
}

#[test]
fn empty_file_list_reads_back_empty() {
    let mut index = PRSearchIndex::in_memory().unwrap();
    index.index_pr(&details(9, "Docs only", "wording fixes", &[])).unwrap();
    index.commit().unwrap();
    let hits = index.search("wording", 3).unwrap();
    assert_eq!(hits.len(), 1);
    assert!(hits[0].files.is_empty());
}

#[test]
fn bare_terms_search_only_the_description() {
    let mut index = PRSearchIndex::in_memory().unwrap();
    index.index_pr(&details(10, "Telescope", "unrelated words", &["telescope.rs"])).unwrap();
    index.commit().unwrap();
    assert!(index.search("telescope", 3).unwrap().is_empty());
    assert_eq!(index.search("title:telescope", 3).unwrap().len(), 1);
}

#[test]
fn malformed_query_is_reported_even_at_limit_zero() {
    let index = PRSearchIndex::in_memory().unwrap();
    assert!(matches!(index.search("nosuchfield:x", 0), Err(IndexError::Query(_))));
    assert!(index.search("fine", 0).unwrap().is_empty());
    assert!(index.search("", 4).unwrap().is_empty());
}

#[test]
fn hits_come_best_first() {
    let mut index = PRSearchIndex::in_memory().unwrap();
    index.index_pr(&details(1, "One", "cache cache cache cache", &["a.rs"])).unwrap();
    index.index_pr(&details(2, "Two", "cache and many other unrelated words here", &["b.rs"])).unwrap();
    index.commit().unwrap();
    let hits = index.search("cache", 5).unwrap();
    assert_eq!(hits.len(), 2);
    assert!(f32::from_bits(hits[0].score_bits) >= f32::from_bits(hits[1].score_bits));
    assert_eq!(hits[0].pr_number, 1);
}
