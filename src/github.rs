//! Pull requests as the source-hosting service describes them, and the
//! decisions taken while listing them page by page.
use vstd::prelude::*;
use crate::text::{equals_str, decimal, push_decimal, decimal_string};

verus! {

/// A pull request with what the text index needs of it.
#[derive(Debug, Clone)]
pub struct PullRequestDetails {
    pub number: u64,
    pub title: String,
    pub description: String,
    pub comments: Vec<String>,
    pub state: String,
    pub mergeable: Option<bool>,
    pub merged: bool,
    pub workflows: Vec<WorkflowRun>,
    pub commits: Vec<CommitInfo>,
    pub diff: String,
}

/// One automated check run on a pull request's head commit.
#[derive(Debug, Clone)]
pub struct WorkflowRun {
    pub id: String,
    pub name: String,
    pub status: String,
    pub conclusion: Option<String>,
    pub html_url: String,
    pub logs_url: Option<String>,
    pub head_sha: String,
}

#[derive(Debug, Clone)]
pub struct CommitInfo {
    pub sha: String,
    pub message: String,
    pub author: String,
    pub author_email: Option<String>,
    pub url: String,
}

/// A merged pull request as listed, before its details are fetched.
#[derive(Debug, Clone)]
pub struct PullRequestSummary {
    pub number: u64,
    pub title: String,
    pub state: String,
    pub merged: bool,
}

/// The state the service gives a pull request.
#[derive(Debug, Clone)]
pub enum PrState {
    Open,
    Closed,
    Other,
}

/// One entry of a page of closed pull requests, as the service lists it.
#[derive(Debug, Clone)]
pub struct PullRequestListing {
    pub number: u64,
    pub title: Option<String>,
    pub state: Option<PrState>,
    /// Whether it carries a merge time.
    pub merged: bool,
}

pub open spec fn state_name(state: Option<PrState>) -> Seq<char> {
    match state {
        Some(PrState::Open) => "open"@,
        Some(PrState::Closed) => "closed"@,
        Some(PrState::Other) => "other"@,
        None => "unknown"@,
    }
}

/// The name of a pull request state: "open", "closed", "other", or
/// "unknown" where none is given.
pub fn state_label(state: &Option<PrState>) -> (r: String)
    ensures
        r@ == state_name(*state),
{
    match state {
        Some(PrState::Open) => String::from_str("open"),
        Some(PrState::Closed) => String::from_str("closed"),
        Some(PrState::Other) => String::from_str("other"),
        None => String::from_str("unknown"),
    }
}

pub open spec fn concluded(w: WorkflowRun, outcome: Seq<char>) -> bool {
    w.conclusion is Some && w.conclusion->Some_0@ == outcome
}

/// The aggregate check status: "all_passed" where every run succeeded (so
/// also where there is none), else "some_failed" where one failed, else
/// "incomplete".
pub open spec fn checks_label(runs: Seq<WorkflowRun>) -> Seq<char> {
    if forall|k: int| 0 <= k < runs.len() ==> concluded(#[trigger] runs[k], "success"@) {
        "all_passed"@
    } else if exists|k: int| 0 <= k < runs.len() && concluded(#[trigger] runs[k], "failure"@) {
        "some_failed"@
    } else {
        "incomplete"@
    }
}

fn has_conclusion(w: &WorkflowRun, outcome: &str) -> (r: bool)
    ensures
        r == concluded(*w, outcome@),
{
    match &w.conclusion {
        Some(c) => equals_str(c, outcome),
        None => false,
    }
}

/// The aggregate status of a pull request's check runs.
pub fn checks_status(workflows: &Vec<WorkflowRun>) -> (r: String)
    ensures
        r@ == checks_label(workflows@),
{
    let mut all_passed = true;
    let mut some_failed = false;
    let mut k: usize = 0;
    while k < workflows.len()
        invariant
            k <= workflows.len(),
            all_passed == forall|j: int| 0 <= j < k ==> concluded(#[trigger] workflows@[j], "success"@),
            some_failed == exists|j: int| 0 <= j < k && concluded(#[trigger] workflows@[j], "failure"@),
        decreases workflows.len() - k,
    {
        if !has_conclusion(&workflows[k], "success") {
            all_passed = false;
        }
        if has_conclusion(&workflows[k], "failure") {
            some_failed = true;
        }
        k = k + 1;
    }
    if all_passed {
        String::from_str("all_passed")
    } else if some_failed {
        String::from_str("some_failed")
    } else {
        String::from_str("incomplete")
    }
}

pub open spec fn title_or_empty(title: Option<String>) -> Seq<char> {
    match title {
        Some(t) => t@,
        None => Seq::empty(),
    }
}

/// `s` is the summary of the listed pull request `p`.
pub open spec fn summarizes(s: PullRequestSummary, p: PullRequestListing) -> bool {
    &&& s.number == p.number
    &&& s.title@ == title_or_empty(p.title)
    &&& s.state@ == state_name(p.state)
    &&& s.merged
}

pub open spec fn merged_only(page: Seq<PullRequestListing>) -> Seq<PullRequestListing> {
    page.filter(|p: PullRequestListing| p.merged)
}

pub open spec fn min(a: int, b: int) -> int {
    if a <= b { a } else { b }
}

/// How many merged entries of `page` still fit under `limit` after `had`.
pub open spec fn taken_from_page(had: int, limit: int, page: Seq<PullRequestListing>) -> int {
    min(if had < limit { limit - had } else { 0 }, merged_only(page).len() as int)
}

fn summary_of(p: &PullRequestListing) -> (r: PullRequestSummary)
    ensures
        summarizes(r, *p),
{
    let title = match &p.title {
        Some(t) => t.clone(),
        None => String::new(),
    };
    PullRequestSummary { number: p.number, title, state: state_label(&p.state), merged: true }
}

/// Takes one page of a listing of closed pull requests, newest first:
/// appends to `all` the summaries of its merged entries, in order, until
/// `all` holds `limit`. Returns whether to ask for the next page: the page
/// was not empty and `all` is still short of `limit`.
pub fn collect_merged(all: &mut Vec<PullRequestSummary>, page: Vec<PullRequestListing>, limit: usize) -> (more: bool)
    ensures
        final(all).len() == old(all).len() + taken_from_page(old(all).len() as int, limit as int, page@),
        forall|k: int| 0 <= k < old(all).len() ==> #[trigger] final(all)@[k] == old(all)@[k],
        forall|k: int|
            0 <= k < taken_from_page(old(all).len() as int, limit as int, page@) ==> summarizes(
                #[trigger] final(all)@[old(all).len() + k],
                merged_only(page@)[k],
            ),
        more == (page.len() > 0 && final(all).len() < limit),
{
    let ghost had = all.len() as int;
    let ghost before = all@;
    let ghost keep = |p: PullRequestListing| p.merged;
    let mut i: usize = 0;
    while i < page.len()
        invariant
            i <= page.len(),
            keep == (|p: PullRequestListing| p.merged),
            had == old(all).len(),
            before == old(all)@,
            all.len() == had + taken_from_page(had, limit as int, page@.take(i as int)),
            forall|k: int| 0 <= k < had ==> #[trigger] all@[k] == before[k],
            forall|k: int|
                0 <= k < taken_from_page(had, limit as int, page@.take(i as int)) ==> summarizes(
                    #[trigger] all@[had + k],
                    merged_only(page@.take(i as int))[k],
                ),
        decreases page.len() - i,
    {
        proof {
            assert(page@.take(i + 1) =~= page@.take(i as int).push(page@[i as int]));
            page@.take(i as int).lemma_filter_push(page@[i as int], keep);
        }
        if all.len() < limit && page[i].merged {
            let s = summary_of(&page[i]);
            all.push(s);
        }
        i = i + 1;
    }
    assert(page@.take(i as int) =~= page@);
    page.len() > 0 && all.len() < limit
}

/// A check run as the service reports it, before defaults are filled in.
#[derive(Debug, Clone)]
pub struct WorkflowRunRecord {
    pub id: u64,
    pub name: Option<String>,
    pub head_sha: String,
    pub status: Option<String>,
    pub conclusion: Option<String>,
    pub html_url: String,
    pub run_attempt: Option<u64>,
}

pub open spec fn or_default(o: Option<String>, default: Seq<char>) -> Seq<char> {
    match o {
        Some(s) => s@,
        None => default,
    }
}

/// The API path of a repository: "/repos/{owner}/{repo}".
pub open spec fn repo_path(owner: Seq<char>, repo: Seq<char>) -> Seq<char> {
    "/repos/"@ + owner + "/"@ + repo
}

/// Where the logs of one attempt of a run are.
pub open spec fn logs_url_of(owner: Seq<char>, repo: Seq<char>, id: u64, attempt: u64) -> Seq<char> {
    "https://api.github.com"@ + repo_path(owner, repo) + "/actions/runs/"@ + decimal(id as nat)
        + "/attempts/"@ + decimal(attempt as nat) + "/logs"@
}

fn push_repo_path(out: &mut String, owner: &str, repo: &str)
    ensures
        final(out)@ == old(out)@ + repo_path(owner@, repo@),
{
    out.append("/repos/");
    out.append(owner);
    out.append("/");
    out.append(repo);
}

/// The route that lists the check runs of a repository.
pub fn workflow_runs_route(owner: &str, repo: &str) -> (r: String)
    ensures
        r@ == repo_path(owner@, repo@) + "/actions/runs"@,
{
    let mut r = String::new();
    push_repo_path(&mut r, owner, repo);
    r.append("/actions/runs");
    r
}

/// The route that lists the commits of a pull request.
pub fn pr_commits_route(owner: &str, repo: &str, number: u64) -> (r: String)
    ensures
        r@ == repo_path(owner@, repo@) + "/pulls/"@ + decimal(number as nat) + "/commits"@,
{
    let mut r = String::new();
    push_repo_path(&mut r, owner, repo);
    r.append("/pulls/");
    push_decimal(&mut r, number as u128);
    r.append("/commits");
    r
}

/// The URL from which a pull request's diff is fetched.
pub fn pr_diff_url(owner: &str, repo: &str, number: u64) -> (r: String)
    ensures
        r@ == "https://api.github.com"@ + repo_path(owner@, repo@) + "/pulls/"@ + decimal(number as nat),
{
    let mut r = String::from_str("https://api.github.com");
    push_repo_path(&mut r, owner, repo);
    r.append("/pulls/");
    push_decimal(&mut r, number as u128);
    r
}

/// A check run with its defaults: "Unknown" for a missing name, "unknown"
/// for a missing status, and the logs URL where an attempt is known.
pub fn workflow_run_from(owner: &str, repo: &str, run: WorkflowRunRecord) -> (r: WorkflowRun)
    ensures
        r.id@ == decimal(run.id as nat),
        r.name@ == or_default(run.name, "Unknown"@),
        r.status@ == or_default(run.status, "unknown"@),
        r.conclusion == run.conclusion,
        r.html_url == run.html_url,
        r.head_sha == run.head_sha,
        r.logs_url is Some == run.run_attempt is Some,
        r.logs_url matches Some(u) ==> u@ == logs_url_of(owner@, repo@, run.id, run.run_attempt->Some_0),
{
    let logs_url = match run.run_attempt {
        Some(attempt) => {
            let mut u = String::from_str("https://api.github.com");
            push_repo_path(&mut u, owner, repo);
            u.append("/actions/runs/");
            push_decimal(&mut u, run.id as u128);
            u.append("/attempts/");
            push_decimal(&mut u, attempt as u128);
            u.append("/logs");
            Some(u)
        },
        None => None,
    };
    let name = match run.name {
        Some(n) => n,
        None => String::from_str("Unknown"),
    };
    let status = match run.status {
        Some(s) => s,
        None => String::from_str("unknown"),
    };
    WorkflowRun {
        id: decimal_string(run.id),
        name,
        status,
        conclusion: run.conclusion,
        html_url: run.html_url,
        logs_url,
        head_sha: run.head_sha,
    }
}

} // verus!
