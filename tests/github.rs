use similarity_engine::github::{
    checks_status, collect_merged, state_label, PrState, PullRequestListing, PullRequestSummary,
    WorkflowRun,
};

fn run(conclusion: Option<&str>) -> WorkflowRun {
    WorkflowRun {
        id: "1".to_string(),
        name: "ci".to_string(),
        status: "completed".to_string(),
        conclusion: conclusion.map(|c| c.to_string()),
        html_url: String::new(),
        logs_url: None,
        head_sha: String::new(),
    }
}

fn listed(number: u64, merged: bool) -> PullRequestListing {
    PullRequestListing {
        number,
        title: if number % 2 == 0 { Some(format!("PR {}", number)) } else { None },
        state: Some(PrState::Closed),
        merged,
    }
}

#[test]
fn checks_aggregate() {
    assert_eq!(checks_status(&vec![]), "all_passed");
    assert_eq!(checks_status(&vec![run(Some("success")), run(Some("success"))]), "all_passed");
    assert_eq!(checks_status(&vec![run(Some("success")), run(Some("failure"))]), "some_failed");
    assert_eq!(checks_status(&vec![run(None), run(Some("success"))]), "incomplete");
    assert_eq!(checks_status(&vec![run(Some("cancelled"))]), "incomplete");
}

#[test]
fn state_labels() {
    assert_eq!(state_label(&Some(PrState::Open)), "open");
    assert_eq!(state_label(&Some(PrState::Closed)), "closed");
    assert_eq!(state_label(&Some(PrState::Other)), "other");
    assert_eq!(state_label(&None), "unknown");
}

#[test]
fn merged_entries_fill_up_to_the_limit() {
    let mut all: Vec<PullRequestSummary> = Vec::new();
    let more = collect_merged(&mut all, vec![listed(10, true), listed(9, false), listed(8, true)], 3);
    assert!(more);
    assert_eq!(all.iter().map(|s| s.number).collect::<Vec<_>>(), vec![10, 8]);
    assert_eq!(all[0].title, "PR 10");
    assert_eq!(all[0].state, "closed");
    assert!(all[0].merged);
    let more = collect_merged(&mut all, vec![listed(7, true), listed(6, true), listed(5, true)], 3);
    assert!(!more);
    assert_eq!(all.iter().map(|s| s.number).collect::<Vec<_>>(), vec![10, 8, 7]);
    assert_eq!(all[2].title, "");
}

#[test]
fn empty_page_stops_the_listing() {
    let mut all: Vec<PullRequestSummary> = Vec::new();
    assert!(!collect_merged(&mut all, vec![], 5));
    assert!(all.is_empty());
}
