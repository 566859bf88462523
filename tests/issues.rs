use similarity_engine::candidate_query::{build_similarity_query, candidate_queries, Condition, Scope};
use similarity_engine::issue_contextualizer::IssueContextualizer;
use similarity_engine::jira_client::{
    merge_batches, similar_issue_requests, PullRequest,
    Account, CommentWrapper, Fields, IdKeyWrapper, IdNameWrapper, Issue, IssueLink,
    NumericIdNameWrapper, Project, Status,
};

fn named(id: &str, name: &str) -> IdNameWrapper {
    IdNameWrapper { id: id.to_string(), name: name.to_string() }
}

fn issue(key: &str, project: &str) -> Issue {
    Issue {
        id: format!("id-{}", key),
        key: key.to_string(),
        fields: Fields {
            labels: vec![],
            description: None,
            status: Status {
                name: Some("Open".to_string()),
                category: NumericIdNameWrapper { name: "To Do".to_string(), id: 2 },
            },
            project: Project { id: format!("p-{}", project), key: project.to_string() },
            summary: Some(format!("Summary of {}", key)),
            assignee: None,
            comment: CommentWrapper { comments: vec![] },
            components: vec![],
            resolution: None,
            issue_type: named("1", "Task"),
            epic: None,
            parent: None,
            creator: Account { id: "acc".to_string() },
            issue_links: None,
        },
        pull_requests: vec![],
    }
}

fn parent_ref(key: &str) -> Option<IdKeyWrapper> {
    Some(IdKeyWrapper { key: key.to_string(), id: format!("id-{}", key) })
}

fn epic(id: u64) -> Option<NumericIdNameWrapper> {
    Some(NumericIdNameWrapper { name: format!("Epic {}", id), id })
}

fn inward_link(key: &str) -> IssueLink {
    IssueLink { id: format!("l-{}", key), link_type: named("10", "Relates"), inward_issue: parent_ref(key) }
}

#[test]
fn unrelated_issue_in_other_project_scores_zero() {
    let mut seed = issue("S-1", "ALPHA");
    seed.fields.labels = vec!["backend".to_string()];
    seed.fields.components = vec![named("100", "Core")];
    let mut other = issue("B-7", "BETA");
    other.fields.labels = vec!["backend".to_string()];
    other.fields.components = vec![named("100", "Core")];
    assert_eq!(IssueContextualizer::calculate_similarity_score(&seed, &other), 0);
    assert_eq!(
        IssueContextualizer::get_similarity_reasons(&seed, &other),
        "Similar based on content and description"
    );
}

#[test]
fn parent_and_sibling_scenario() {
    let mut seed = issue("S-1", "ALPHA");
    seed.fields.parent = parent_ref("P-1");
    seed.fields.labels = vec!["ui".to_string()];
    let parent = issue("P-1", "ALPHA");
    let mut sibling = issue("C-2", "ALPHA");
    sibling.fields.parent = parent_ref("P-1");
    sibling.fields.labels = vec!["ui".to_string()];

    assert_eq!(IssueContextualizer::calculate_similarity_score(&seed, &parent), 35);
    assert_eq!(IssueContextualizer::get_similarity_reasons(&seed, &parent), "This is the parent ticket");
    assert_eq!(IssueContextualizer::calculate_similarity_score(&seed, &sibling), 33);
    assert_eq!(
        IssueContextualizer::get_similarity_reasons(&seed, &sibling),
        "Shares same parent; Shared labels: ui"
    );
}

#[test]
fn each_signal_adds_its_weight() {
    let mut seed = issue("S-1", "ALPHA");
    let mut other = issue("O-1", "ALPHA");
    let mut last = IssueContextualizer::calculate_similarity_score(&seed, &other);
    assert_eq!(last, 0);

    other.fields.labels = vec!["a".to_string()];
    seed.fields.labels = vec!["a".to_string(), "b".to_string()];
    let s = IssueContextualizer::calculate_similarity_score(&seed, &other);
    assert_eq!(s, last + 3);
    last = s;

    seed.fields.components = vec![named("1", "Core"), named("2", "Api")];
    other.fields.components = vec![named("2", "Api"), named("1", "Core")];
    let s = IssueContextualizer::calculate_similarity_score(&seed, &other);
    assert_eq!(s, last + 10);
    last = s;

    seed.fields.epic = epic(9);
    other.fields.epic = epic(9);
    let s = IssueContextualizer::calculate_similarity_score(&seed, &other);
    assert_eq!(s, last + 40);
    last = s;

    seed.fields.issue_links = Some(vec![inward_link("O-1")]);
    let s = IssueContextualizer::calculate_similarity_score(&seed, &other);
    assert_eq!(s, last + 50);
    assert_eq!(s, 103);
    assert_eq!(
        IssueContextualizer::get_similarity_reasons(&seed, &other),
        "Directly linked issue; Same epic; Shared components: Core, Api; Shared labels: a"
    );
}

#[test]
fn repeated_values_count_once() {
    let mut seed = issue("S-1", "ALPHA");
    seed.fields.labels = vec!["x".to_string(), "x".to_string(), "y".to_string()];
    seed.fields.components = vec![named("1", "Core"), named("1", "Core again")];
    let mut other = issue("O-1", "ALPHA");
    other.fields.labels = vec!["x".to_string(), "x".to_string()];
    other.fields.components = vec![named("1", "Core")];
    assert_eq!(IssueContextualizer::calculate_similarity_score(&seed, &other), 8);
    assert_eq!(
        IssueContextualizer::get_similarity_reasons(&seed, &other),
        "Shared components: Core; Shared labels: x"
    );
}

#[test]
fn direct_link_outranks_small_overlaps() {
    let mut seed = issue("S-1", "ALPHA");
    seed.fields.issue_links = Some(vec![inward_link("L-1")]);
    seed.fields.labels = vec!["a".to_string(), "b".to_string(), "c".to_string()];
    seed.fields.components = vec![named("1", "A"), named("2", "B"), named("3", "C")];
    let linked = issue("L-1", "OTHER");
    let mut overlapping = issue("O-1", "ALPHA");
    overlapping.fields.labels = seed.fields.labels.clone();
    overlapping.fields.components = seed.fields.components.clone();
    let a = IssueContextualizer::calculate_similarity_score(&seed, &linked);
    let b = IssueContextualizer::calculate_similarity_score(&seed, &overlapping);
    assert_eq!(a, 50);
    assert_eq!(b, 24);
    assert!(a > b);
}

#[test]
fn ten_shared_components_match_a_link() {
    let mut seed = issue("S-1", "ALPHA");
    seed.fields.issue_links = Some(vec![inward_link("L-1")]);
    seed.fields.components = (0..10).map(|k| named(&k.to_string(), "C")).collect();
    let linked = issue("L-1", "OTHER");
    let mut overlapping = issue("O-1", "ALPHA");
    overlapping.fields.components = seed.fields.components.clone();
    assert_eq!(IssueContextualizer::calculate_similarity_score(&seed, &overlapping), 50);
    assert_eq!(IssueContextualizer::calculate_similarity_score(&seed, &linked), 50);
}

#[test]
fn parent_is_not_counted_as_sibling() {
    let mut seed = issue("S-1", "ALPHA");
    seed.fields.parent = parent_ref("P-1");
    let mut parent = issue("P-1", "BETA");
    parent.fields.parent = parent_ref("P-1");
    assert_eq!(IssueContextualizer::calculate_similarity_score(&seed, &parent), 35);
}

#[test]
fn ranking_is_descending_and_stable() {
    let mut seed = issue("S-1", "ALPHA");
    seed.fields.labels = vec!["a".to_string()];
    seed.fields.parent = parent_ref("P-1");
    let first_tie = issue("T-1", "ALPHA");
    let mut labelled = issue("L-1", "ALPHA");
    labelled.fields.labels = vec!["a".to_string()];
    let second_tie = issue("T-2", "ALPHA");
    let parent = issue("P-1", "ALPHA");
    let ranked = IssueContextualizer::sort_issues_by_similarity(
        &seed,
        vec![&first_tie, &labelled, &second_tie, &parent],
    );
    let keys: Vec<(&str, u128)> = ranked.iter().map(|(i, s)| (i.key.as_str(), *s)).collect();
    assert_eq!(keys, vec![("P-1", 35), ("L-1", 3), ("T-1", 0), ("T-2", 0)]);
}

#[test]
fn ranking_nothing_gives_nothing() {
    let seed = issue("S-1", "ALPHA");
    assert!(IssueContextualizer::sort_issues_by_similarity(&seed, vec![]).is_empty());
}

#[test]
fn selection_applies_inclusive_threshold_then_cap() {
    let mut seed = issue("S-1", "ALPHA");
    seed.fields.labels = vec!["a".to_string()];
    seed.fields.epic = epic(4);
    let mut e = issue("E-1", "BETA");
    e.fields.epic = epic(4);
    let mut l = issue("L-1", "ALPHA");
    l.fields.labels = vec!["a".to_string()];
    let z = issue("Z-1", "ALPHA");
    let mut l2 = issue("L-2", "ALPHA");
    l2.fields.labels = vec!["a".to_string()];
    let all = vec![&z, &l, &e, &l2];

    let kept = IssueContextualizer::rank_and_select(&seed, all.clone(), Some(3), None);
    let keys: Vec<&str> = kept.iter().map(|(i, _)| i.key.as_str()).collect();
    assert_eq!(keys, vec!["E-1", "L-1", "L-2"]);

    let capped = IssueContextualizer::rank_and_select(&seed, all.clone(), Some(3), Some(2));
    let keys: Vec<&str> = capped.iter().map(|(i, _)| i.key.as_str()).collect();
    assert_eq!(keys, vec!["E-1", "L-1"]);

    let everything = IssueContextualizer::rank_and_select(&seed, all.clone(), None, None);
    assert_eq!(everything.len(), 4);
    assert_eq!(everything[3].0.key, "Z-1");

    let none = IssueContextualizer::rank_and_select(&seed, all, Some(41), Some(10));
    assert!(none.is_empty());
}

#[test]
fn seed_without_relations_has_no_queries() {
    let seed = issue("S-1", "ALPHA");
    assert!(candidate_queries(&seed).is_empty());
    assert!(build_similarity_query(&seed).is_empty());
    let mut linked_nowhere = issue("S-2", "ALPHA");
    linked_nowhere.fields.issue_links = Some(vec![]);
    assert!(build_similarity_query(&linked_nowhere).is_empty());
}

#[test]
fn components_only_give_one_project_query() {
    let mut seed = issue("S-1", "ALPHA");
    seed.fields.components = vec![named("10", "Core"), named("11", "Api")];
    let queries = candidate_queries(&seed);
    assert_eq!(queries.len(), 1);
    assert!(matches!(&queries[0].scope, Scope::Project(p) if p == "ALPHA"));
    assert_eq!(queries[0].excluded_key, "S-1");
    assert_eq!(queries[0].conditions.len(), 1);
    assert!(matches!(&queries[0].conditions[0], Condition::ComponentIn(ids) if ids == &vec!["10".to_string(), "11".to_string()]));
    let rendered = build_similarity_query(&seed);
    assert_eq!(rendered.len(), 1);
    assert_eq!(
        rendered[0].0,
        "(component in (10,11)) AND key NOT in (\"S-1\") AND project = \"ALPHA\" ORDER BY updated DESC"
    );
}

#[test]
fn all_relations_give_two_queries() {
    let mut seed = issue("S-1", "ALPHA");
    seed.fields.issue_links = Some(vec![
        inward_link("L-1"),
        IssueLink { id: "out".to_string(), link_type: named("10", "Blocks"), inward_issue: None },
        inward_link("L-2"),
    ]);
    seed.fields.epic = epic(42);
    seed.fields.parent = parent_ref("P-1");
    seed.fields.components = vec![named("7", "Core")];
    seed.fields.labels = vec!["ui".to_string(), "bug".to_string()];
    let rendered = build_similarity_query(&seed);
    assert_eq!(rendered.len(), 2);
    assert_eq!(
        rendered[0].0,
        "(key in (\"L-1\",\"L-2\",\"P-1\") OR \"Epic Link\" = 42 OR parent = P-1) AND key NOT in (\"S-1\") ORDER BY updated DESC"
    );
    assert_eq!(
        rendered[1].0,
        "(component in (7) OR labels in (ui,bug)) AND key NOT in (\"S-1\") AND project = \"ALPHA\" ORDER BY updated DESC"
    );
    let fields = vec![
        "summary", "status", "issuetype", "components", "labels", "parent", "epic", "issuelinks",
        "project", "description", "comment", "creator",
    ];
    assert_eq!(rendered[0].1, fields);
    assert_eq!(rendered[1].1, fields);
}

#[test]
fn epic_alone_gives_one_cross_project_query() {
    let mut seed = issue("S-9", "ALPHA");
    seed.fields.epic = epic(1234567);
    let queries = candidate_queries(&seed);
    assert_eq!(queries.len(), 1);
    assert!(matches!(queries[0].scope, Scope::AnyProject));
    assert_eq!(
        queries[0].to_jql(),
        "(\"Epic Link\" = 1234567) AND key NOT in (\"S-9\") ORDER BY updated DESC"
    );
    assert_eq!(Condition::EpicLink(0).to_jql(), "\"Epic Link\" = 0");
}

#[test]
fn failed_fetches_contribute_nothing() {
    let merged = merge_batches(vec![
        Some(vec![issue("A-1", "X"), issue("A-2", "X")]),
        None,
        Some(vec![issue("B-1", "Y")]),
    ]);
    let keys: Vec<&str> = merged.iter().map(|i| i.key.as_str()).collect();
    assert_eq!(keys, vec!["A-1", "A-2", "B-1"]);
    assert!(merge_batches(vec![None, None]).is_empty());
}

#[test]
fn candidate_requests_ask_for_fifty() {
    let mut seed = issue("S-1", "ALPHA");
    seed.fields.parent = parent_ref("P-1");
    seed.fields.labels = vec!["ui".to_string()];
    let requests = similar_issue_requests(&seed);
    assert_eq!(requests.len(), 2);
    assert_eq!(
        requests[0].jql,
        "(key in (\"P-1\") OR parent = P-1) AND key NOT in (\"S-1\") ORDER BY updated DESC"
    );
    assert!(requests.iter().all(|r| r.start_at == 0 && r.max_results == 50 && r.validate_query));
    assert_eq!(requests[1].fields.len(), 12);
    assert_eq!(requests[1].expand, vec![""]);
}

#[test]
fn llm_context_lists_top_five() {
    let mut seed = issue("S-1", "ALPHA");
    seed.fields.description = Some("Crash on save".to_string());
    seed.fields.components = vec![named("1", "Core"), named("2", "Api")];
    seed.fields.labels = vec!["ui".to_string()];
    seed.fields.parent = parent_ref("P-1");
    let mut first = issue("P-1", "ALPHA");
    first.fields.summary = None;
    first.fields.resolution = Some(named("5", "Done"));
    first.pull_requests = vec![
        PullRequest { name: "n".to_string(), status: "MERGED".to_string(), url: "https://g/1".to_string(), repository_name: "r".to_string() },
    ];
    first.fields.components = vec![named("1", "Core")];
    let mut scored = vec![(first, 35u128)];
    for k in 0..6 {
        scored.push((issue(&format!("Z-{}", k), "BETA"), 3));
    }
    let block = IssueContextualizer::format_similar_issues(&seed, &scored);
    let expected_first = "## P-1 (Similarity: 3.50)\nTitle: No Title\nResolution: Done\nReason for similarity: This is the parent ticket; Shared components: Core\nStatus: Open\nPull Requests: https://g/1\nComponents: Core\nLabels:\nDescription:\nNo Description\n\n";
    assert!(block.starts_with(expected_first));
    assert_eq!(block.matches("## ").count(), 5);
    assert!(block.contains("## Z-3 (Similarity: 0.30)"));
    assert!(!block.contains("Z-4"));
    let context = IssueContextualizer::get_llm_context(&seed, scored);
    assert!(context.starts_with("# Primary Issue\nKey: S-1\nTitle: Summary of S-1\nDescription:\nCrash on save\n\n# Additional Context\n- Project: ALPHA\n- Component(s): Core, Api\n- Labels: ui\n\n# Similar Issues (by relevance score)\n\n## P-1"));
    assert!(context.ends_with("No Description\n\n\n"));
    assert_eq!(IssueContextualizer::format_similar_issues(&seed, &vec![]), "");
}
