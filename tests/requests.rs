use similarity_engine::github::{
    pr_commits_route, pr_diff_url, workflow_run_from, workflow_runs_route, WorkflowRunRecord,
};
use similarity_engine::jira_client::{
    basic_auth_header, basic_auth_value, build_search_jql, flatten_pull_requests, issue_endpoint,
    normalize_base_url, pull_requests_endpoint, request_url, search_jql, DevelopmentDetails,
    GetPullRequestsResponse, PullRequest, SearchRequest, SEARCH_ENDPOINT,
};

fn pr(url: &str) -> PullRequest {
    PullRequest {
        name: format!("name {}", url),
        status: "MERGED".to_string(),
        url: url.to_string(),
        repository_name: "repo".to_string(),
    }
}

#[test]
fn auth_header_encodes_credentials() {
    assert_eq!(basic_auth_header("dev@example.com", "tok3n"), "Basic ZGV2QGV4YW1wbGUuY29tOnRvazNu");
    assert_eq!(basic_auth_header("é", "x"), "Basic w6k6eA==");
    assert_eq!(basic_auth_value("abc="), "Basic abc=");
}

#[test]
fn base_url_loses_trailing_slashes() {
    assert_eq!(normalize_base_url("https://x.atlassian.net///"), "https://x.atlassian.net");
    assert_eq!(normalize_base_url("https://x.atlassian.net"), "https://x.atlassian.net");
    assert_eq!(normalize_base_url("///"), "");
    assert_eq!(normalize_base_url(""), "");
}

#[test]
fn endpoints() {
    assert_eq!(issue_endpoint("ABC-12"), "/rest/agile/1.0/issue/ABC-12");
    assert_eq!(
        pull_requests_endpoint("10042"),
        "/rest/dev-status/latest/issue/detail?issueId=10042&applicationType=GitHub&dataType=pullrequest"
    );
    assert_eq!(request_url("https://x.net", SEARCH_ENDPOINT), "https://x.net/rest/api/2/search");
}

#[test]
fn search_request_defaults() {
    let r = SearchRequest::for_jql("project = A".to_string(), 30, 15);
    assert_eq!(r.jql, "project = A");
    assert_eq!(r.start_at, 30);
    assert_eq!(r.max_results, 15);
    assert_eq!(r.fields, vec!["*all"]);
    assert!(r.validate_query);
    assert_eq!(r.expand, vec![""]);
}

#[test]
fn pull_requests_are_flattened_in_order() {
    let response = GetPullRequestsResponse {
        details: vec![
            DevelopmentDetails { pull_requests: vec![pr("u1"), pr("u2")] },
            DevelopmentDetails { pull_requests: vec![] },
            DevelopmentDetails { pull_requests: vec![pr("u3")] },
        ],
    };
    let urls: Vec<String> = flatten_pull_requests(response).into_iter().map(|p| p.url).collect();
    assert_eq!(urls, vec!["u1", "u2", "u3"]);
}

#[test]
fn search_jql_from_filters() {
    assert_eq!(build_search_jql(None, None, None, None), "order by created DESC");
    assert_eq!(
        build_search_jql(Some("login bug"), Some(" Core , Api"), None, Some("ALPHA")),
        "(summary ~ \"login bug\" OR description ~ \"login bug\") AND component in (\"Core\",\"Api\") AND project in (\"ALPHA\") order by created DESC"
    );
    assert_eq!(
        build_search_jql(None, None, Some("ui,,\tbackend\n"), None),
        "labels in (\"ui\",\"\",\"backend\") order by created DESC"
    );
    let labels = vec!["a b".to_string()];
    assert_eq!(search_jql(None, None, Some(&labels), None), "labels in (\"a b\") order by created DESC");
}

#[test]
fn workflow_run_defaults_and_logs() {
    let run = workflow_run_from(
        "octo",
        "widgets",
        WorkflowRunRecord {
            id: 991,
            name: None,
            head_sha: "abc".to_string(),
            status: None,
            conclusion: Some("success".to_string()),
            html_url: "https://github.com/octo/widgets/actions/runs/991".to_string(),
            run_attempt: Some(2),
        },
    );
    assert_eq!(run.id, "991");
    assert_eq!(run.name, "Unknown");
    assert_eq!(run.status, "unknown");
    assert_eq!(run.conclusion.as_deref(), Some("success"));
    assert_eq!(
        run.logs_url.as_deref(),
        Some("https://api.github.com/repos/octo/widgets/actions/runs/991/attempts/2/logs")
    );
    let named = workflow_run_from(
        "o",
        "r",
        WorkflowRunRecord {
            id: 0,
            name: Some("ci".to_string()),
            head_sha: String::new(),
            status: Some("completed".to_string()),
            conclusion: None,
            html_url: String::new(),
            run_attempt: None,
        },
    );
    assert_eq!(named.name, "ci");
    assert_eq!(named.status, "completed");
    assert!(named.logs_url.is_none());
}

#[test]
fn github_routes() {
    assert_eq!(workflow_runs_route("octo", "widgets"), "/repos/octo/widgets/actions/runs");
    assert_eq!(pr_commits_route("octo", "widgets", 17), "/repos/octo/widgets/pulls/17/commits");
    assert_eq!(pr_diff_url("octo", "widgets", 17), "https://api.github.com/repos/octo/widgets/pulls/17");
}

#[test]
fn filters_trim_unicode_white_space() {
    assert_eq!(
        build_search_jql(None, None, Some("\u{3000}ui\u{a0}, \u{2003}api\r"), None),
        "labels in (\"ui\",\"api\") order by created DESC"
    );
}
