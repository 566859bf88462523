//! Entity model of tracked issues, as the issue tracker hands them out, and
//! the requests this library makes of the tracker.
use vstd::prelude::*;
use crate::candidate_query::{build_similarity_query, candidate_queries_of, query_jql, candidate_fields, quoted};
use crate::text::{strs, join, join_strings, chars_of, string_of, split_string, split_on, clone_strings};

verus! {

/// Pull requests attached to an issue, grouped by development detail.
#[derive(Debug, Clone)]
pub struct GetPullRequestsResponse {
    pub details: Vec<DevelopmentDetails>,
}

/// One development-tool entry of an issue and the pull requests it lists.
#[derive(Debug, Clone)]
pub struct DevelopmentDetails {
    pub pull_requests: Vec<PullRequest>,
}

/// A structured search request for the issue tracker.
#[derive(Debug, Clone)]
pub struct SearchRequest {
    pub jql: String,
    pub start_at: i32,
    pub max_results: i32,
    pub fields: Vec<String>,
    pub validate_query: bool,
    pub expand: Vec<String>,
}

/// A page of search results.
#[derive(Debug, Clone)]
pub struct SearchResponse {
    pub expand: String,
    pub start_at: i32,
    pub max_results: i32,
    pub total: i32,
    pub issues: Vec<Issue>,
}

/// A tracked issue: the seed of a retrieval or one of its candidates.
#[derive(Debug, Clone)]
pub struct Issue {
    pub id: String,
    pub key: String,
    pub fields: Fields,
    pub pull_requests: Vec<PullRequest>,
}

/// The descriptive and relational fields of an issue.
#[derive(Debug, Clone)]
pub struct Fields {
    pub labels: Vec<String>,
    pub description: Option<String>,
    pub status: Status,
    pub project: Project,
    pub summary: Option<String>,
    pub assignee: Option<Account>,
    pub comment: CommentWrapper,
    pub components: Vec<IdNameWrapper>,
    pub resolution: Option<IdNameWrapper>,
    pub issue_type: IdNameWrapper,
    pub epic: Option<NumericIdNameWrapper>,
    pub parent: Option<IdKeyWrapper>,
    pub creator: Account,
    pub issue_links: Option<Vec<IssueLink>>,
}

#[derive(Debug, Clone)]
pub struct Comment {
    pub body: String,
    pub id: String,
    pub author: Account,
}

#[derive(Debug, Clone)]
pub struct CommentWrapper {
    pub comments: Vec<Comment>,
}

#[derive(Debug, Clone)]
pub struct Account {
    pub id: String,
}

#[derive(Debug, Clone)]
pub struct Project {
    pub id: String,
    pub key: String,
}

#[derive(Debug, Clone)]
pub struct Status {
    pub name: Option<String>,
    pub category: NumericIdNameWrapper,
}

#[derive(Debug, Clone)]
pub struct IdNameWrapper {
    pub id: String,
    pub name: String,
}

#[derive(Debug, Clone)]
pub struct NumericIdNameWrapper {
    pub name: String,
    pub id: u64,
}

#[derive(Debug, Clone)]
pub struct IdKeyWrapper {
    pub key: String,
    pub id: String,
}

/// A change proposal attached to an issue.
#[derive(Debug, Clone)]
pub struct PullRequest {
    pub name: String,
    pub status: String,
    pub url: String,
    pub repository_name: String,
}

/// A directed link to another issue; `inward_issue` is set on inbound links.
#[derive(Debug, Clone)]
pub struct IssueLink {
    pub id: String,
    pub link_type: IdNameWrapper,
    pub inward_issue: Option<IdKeyWrapper>,
}

/// The standard base64 encoding, with padding, of the UTF-8 bytes of `s`.
pub uninterp spec fn base64_text(s: Seq<char>) -> Seq<char>;

/// A character of the standard base64 alphabet, or its padding '='.
pub open spec fn is_base64_char(c: char) -> bool {
    ('A' <= c && c <= 'Z') || ('a' <= c && c <= 'z') || ('0' <= c && c <= '9') || c == '+' || c == '/'
        || c == '='
}

/// Relies on base64's `STANDARD` engine `encode`: the encoding of the bytes
/// depends on them alone; four characters of the alphabet for every three
/// bytes or part of three, padded with '='.
#[verifier::external_body]
fn base64_encode(s: &str) -> (r: String)
    ensures
        r@ == base64_text(s@),
        r@.len() == 4 * ((s.len() + 2) / 3),
        forall|i: int| 0 <= i < r@.len() ==> is_base64_char(#[trigger] r@[i]),
{
    base64::Engine::encode(&base64::engine::general_purpose::STANDARD, s.as_bytes())
}

/// The value of a basic authentication header whose credentials are
/// already encoded.
pub fn basic_auth_value(encoded_credentials: &str) -> (r: String)
    ensures
        r@ == "Basic "@ + encoded_credentials@,
{
    let mut r = String::from_str("Basic ");
    r.append(encoded_credentials);
    r
}

/// The basic authentication header value for an account and its API token.
pub fn basic_auth_header(email: &str, api_token: &str) -> (r: String)
    ensures
        r@ == "Basic "@ + base64_text(email@ + ":"@ + api_token@),
{
    let mut credentials = String::from_str(email);
    credentials.append(":");
    credentials.append(api_token);
    let encoded = base64_encode(credentials.as_str());
    basic_auth_value(encoded.as_str())
}

/// `s` without the '/' characters that end it.
pub open spec fn without_trailing_slashes(s: Seq<char>) -> Seq<char>
    decreases s.len(),
{
    if s.len() > 0 && s.last() == '/' {
        without_trailing_slashes(s.drop_last())
    } else {
        s
    }
}

/// The tracker's base URL without trailing slashes, as `trim_end_matches('/')`.
pub fn normalize_base_url(base_url: &str) -> (r: String)
    ensures
        r@ == without_trailing_slashes(base_url@),
{
    let chars = chars_of(base_url);
    let mut end: usize = chars.len();
    assert(chars@.take(end as int) =~= chars@);
    while end > 0 && chars[end - 1] == '/'
        invariant
            end <= chars.len(),
            without_trailing_slashes(chars@.take(end as int)) == without_trailing_slashes(base_url@),
            chars@ == base_url@,
        decreases end,
    {
        assert(chars@.take(end as int).drop_last() =~= chars@.take(end - 1));
        end = end - 1;
    }
    assert(chars@.take(end as int) =~= chars@.subrange(0, end as int));
    string_of(&chars, 0, end)
}

/// The URL of an endpoint of the tracker.
pub fn request_url(base_url: &str, endpoint: &str) -> (r: String)
    ensures
        r@ == base_url@ + endpoint@,
{
    let mut r = String::from_str(base_url);
    r.append(endpoint);
    r
}

/// The endpoint that describes one issue.
pub fn issue_endpoint(issue_key: &str) -> (r: String)
    ensures
        r@ == "/rest/agile/1.0/issue/"@ + issue_key@,
{
    let mut r = String::from_str("/rest/agile/1.0/issue/");
    r.append(issue_key);
    r
}

/// The endpoint that lists the pull requests attached to an issue.
pub fn pull_requests_endpoint(issue_id: &str) -> (r: String)
    ensures
        r@ == "/rest/dev-status/latest/issue/detail?issueId="@ + issue_id@
            + "&applicationType=GitHub&dataType=pullrequest"@,
{
    let mut r = String::from_str("/rest/dev-status/latest/issue/detail?issueId=");
    r.append(issue_id);
    r.append("&applicationType=GitHub&dataType=pullrequest");
    r
}

/// The endpoint that searches issues.
pub const SEARCH_ENDPOINT: &'static str = "/rest/api/2/search";

/// The number of issues that one candidate fetch asks for.
pub const CANDIDATE_FETCH_SIZE: i32 = 50;

/// The number of issues that a plain search asks for.
pub const SEARCH_PAGE_SIZE: i32 = 15;

/// The pull requests of every development detail, in order.
pub open spec fn all_pull_requests(details: Seq<DevelopmentDetails>) -> Seq<PullRequest>
    decreases details.len(),
{
    if details.len() == 0 {
        Seq::empty()
    } else {
        details[0].pull_requests@ + all_pull_requests(details.drop_first())
    }
}

/// The pull requests that a development-status response lists.
pub fn flatten_pull_requests(response: GetPullRequestsResponse) -> (r: Vec<PullRequest>)
    ensures
        r@ == all_pull_requests(response.details@),
{
    let ghost whole = response.details@;
    let mut rest = response.details;
    let mut out: Vec<PullRequest> = Vec::new();
    while rest.len() > 0
        invariant
            out@ + all_pull_requests(rest@) == all_pull_requests(whole),
        decreases rest.len(),
    {
        let ghost before = rest@;
        let mut d = rest.remove(0);
        assert(rest@ =~= before.drop_first());
        let ghost prs = d.pull_requests@;
        out.append(&mut d.pull_requests);
        assert(out@ + all_pull_requests(rest@) =~= (out@.subrange(0, out@.len() - prs.len()) + prs)
            + all_pull_requests(rest@));
        assert(out@.subrange(0, out@.len() - prs.len()) + (prs + all_pull_requests(rest@))
            =~= out@ + all_pull_requests(rest@));
    }
    assert(out@ + all_pull_requests(rest@) =~= out@);
    out
}

/// The issues of a batch, none for a fetch that failed.
pub open spec fn batch_issues(batch: Option<Vec<Issue>>) -> Seq<Issue> {
    match batch {
        Some(v) => v@,
        None => Seq::empty(),
    }
}

pub open spec fn all_batches(batches: Seq<Option<Vec<Issue>>>) -> Seq<Issue>
    decreases batches.len(),
{
    if batches.len() == 0 {
        Seq::empty()
    } else {
        batch_issues(batches[0]) + all_batches(batches.drop_first())
    }
}

/// The candidates of several fetches, in fetch order; a fetch that failed
/// (`None`) contributes nothing rather than failing the whole.
pub fn merge_batches(batches: Vec<Option<Vec<Issue>>>) -> (r: Vec<Issue>)
    ensures
        r@ == all_batches(batches@),
{
    let ghost whole = batches@;
    let mut rest = batches;
    let mut out: Vec<Issue> = Vec::new();
    while rest.len() > 0
        invariant
            out@ + all_batches(rest@) == all_batches(whole),
        decreases rest.len(),
    {
        let ghost before = rest@;
        let batch = rest.remove(0);
        assert(rest@ =~= before.drop_first());
        let ghost old_out = out@;
        match batch {
            Some(mut v) => {
                let ghost items = v@;
                out.append(&mut v);
                assert(out@ =~= old_out + items);
            },
            None => {},
        }
        assert(old_out + (batch_issues(before[0]) + all_batches(rest@)) =~= out@ + all_batches(rest@));
    }
    assert(out@ + all_batches(rest@) =~= out@);
    out
}

impl SearchRequest {
    /// A request for every field of the issues that `jql` selects, from
    /// `start_at` on, at most `max_results` of them.
    pub fn for_jql(jql: String, start_at: i32, max_results: i32) -> (r: SearchRequest)
        ensures
            r.jql == jql,
            r.start_at == start_at,
            r.max_results == max_results,
            strs(r.fields@) == seq!["*all"@],
            r.validate_query,
            strs(r.expand@) == seq![""@],
    {
        let r = SearchRequest {
            jql,
            start_at,
            max_results,
            fields: vec![String::from_str("*all")],
            validate_query: true,
            expand: vec![String::from_str("")],
        };
        assert(strs(r.fields@) =~= seq!["*all"@]);
        assert(strs(r.expand@) =~= seq![""@]);
        r
    }
}

/// The search requests that fetch the candidates related to `issue`: one
/// per candidate query, each for its first fifty issues.
pub fn similar_issue_requests(issue: &Issue) -> (r: Vec<SearchRequest>)
    ensures
        r.len() == candidate_queries_of(*issue).len(),
        forall|k: int|
            0 <= k < r.len() ==> {
                &&& (#[trigger] r@[k]).jql@ == query_jql(candidate_queries_of(*issue)[k])
                &&& strs(r@[k].fields@) == candidate_fields()
                &&& r@[k].start_at == 0
                &&& r@[k].max_results == CANDIDATE_FETCH_SIZE
                &&& r@[k].validate_query
                &&& strs(r@[k].expand@) == seq![""@]
            },
{
    let queries = build_similarity_query(issue);
    let mut r: Vec<SearchRequest> = Vec::new();
    let mut k: usize = 0;
    while k < queries.len()
        invariant
            k <= queries.len(),
            r.len() == k,
            queries.len() == candidate_queries_of(*issue).len(),
            forall|j: int|
                0 <= j < queries.len() ==> (#[trigger] queries@[j]).0@ == query_jql(candidate_queries_of(*issue)[j])
                    && strs(queries@[j].1@) == candidate_queries_of(*issue)[j].fields,
            forall|j: int|
                0 <= j < k ==> {
                    &&& (#[trigger] r@[j]).jql@ == query_jql(candidate_queries_of(*issue)[j])
                    &&& strs(r@[j].fields@) == candidate_fields()
                    &&& r@[j].start_at == 0
                    &&& r@[j].max_results == CANDIDATE_FETCH_SIZE
                    &&& r@[j].validate_query
                    &&& strs(r@[j].expand@) == seq![""@]
                },
        decreases queries.len() - k,
    {
        proof {
            crate::candidate_query::lemma_queries_fields(*issue);
        }
        let request = SearchRequest {
            jql: queries[k].0.clone(),
            start_at: 0,
            max_results: CANDIDATE_FETCH_SIZE,
            fields: clone_strings(&queries[k].1),
            validate_query: true,
            expand: vec![String::from_str("")],
        };
        assert(strs(request.expand@) =~= seq![""@]);
        r.push(request);
        k = k + 1;
    }
    r
}

/// A character with the Unicode White_Space property, as
/// `char::is_whitespace` lists it.
pub open spec fn is_white_space(c: char) -> bool {
    ('\t' <= c && c <= '\r') || c == ' ' || c == '\u{85}' || c == '\u{a0}' || c == '\u{1680}' || ('\u{2000}'
        <= c && c <= '\u{200a}') || c == '\u{2028}' || c == '\u{2029}' || c == '\u{202f}' || c == '\u{205f}'
        || c == '\u{3000}'
}

/// `s` without its leading white space.
pub open spec fn trim_start(s: Seq<char>) -> Seq<char>
    decreases s.len(),
{
    if s.len() > 0 && is_white_space(s[0]) { trim_start(s.drop_first()) } else { s }
}

/// `s` without its trailing white space.
pub open spec fn trim_end(s: Seq<char>) -> Seq<char>
    decreases s.len(),
{
    if s.len() > 0 && is_white_space(s.last()) { trim_end(s.drop_last()) } else { s }
}

/// `s` without leading and trailing white space, as `str::trim` gives it.
pub open spec fn trimmed(s: Seq<char>) -> Seq<char> {
    trim_end(trim_start(s))
}

fn white_space(c: char) -> (r: bool)
    ensures
        r == is_white_space(c),
{
    ('\t' <= c && c <= '\r') || c == ' ' || c == '\u{85}' || c == '\u{a0}' || c == '\u{1680}' || ('\u{2000}'
        <= c && c <= '\u{200a}') || c == '\u{2028}' || c == '\u{2029}' || c == '\u{202f}' || c == '\u{205f}'
        || c == '\u{3000}'
}

/// `s` without leading and trailing white space.
fn trim_text(s: &str) -> (r: String)
    ensures
        r@ == trimmed(s@),
{
    let chars = chars_of(s);
    let n = chars.len();
    let mut start: usize = 0;
    assert(chars@.subrange(0, n as int) =~= s@);
    while start < n && white_space(chars[start])
        invariant
            start <= n == chars.len(),
            chars@ == s@,
            trim_start(chars@.subrange(start as int, n as int)) == trim_start(s@),
        decreases n - start,
    {
        assert(chars@.subrange(start as int, n as int).drop_first() =~= chars@.subrange(start + 1, n as int));
        start = start + 1;
    }
    assert(trim_start(s@) == chars@.subrange(start as int, n as int));
    let mut end: usize = n;
    while end > start && white_space(chars[end - 1])
        invariant
            start <= end <= n == chars.len(),
            trim_end(chars@.subrange(start as int, end as int)) == trimmed(s@),
        decreases end,
    {
        assert(chars@.subrange(start as int, end as int).drop_last() =~= chars@.subrange(start as int, end - 1));
        end = end - 1;
    }
    string_of(&chars, start, end)
}

/// A comma-separated list of quoted values.
pub open spec fn quoted_list(items: Seq<Seq<char>>) -> Seq<char> {
    join(items.map_values(|i: Seq<char>| quoted(i)), ","@)
}

pub open spec fn keyword_condition(k: Seq<char>) -> Seq<char> {
    "(summary ~ \""@ + k + "\" OR description ~ \""@ + k + "\")"@
}

pub open spec fn list_condition(name: Seq<char>, items: Seq<Seq<char>>) -> Seq<char> {
    name + " in ("@ + quoted_list(items) + ")"@
}

pub open spec fn push_list(conds: Seq<Seq<char>>, name: Seq<char>, items: Option<Seq<Seq<char>>>) -> Seq<Seq<char>> {
    match items {
        Some(v) => conds.push(list_condition(name, v)),
        None => conds,
    }
}

/// The conditions of a search, each where its filter is given: keywords in
/// the summary or description, then components, labels and projects.
pub open spec fn search_conditions(
    keywords: Option<Seq<char>>,
    components: Option<Seq<Seq<char>>>,
    labels: Option<Seq<Seq<char>>>,
    projects: Option<Seq<Seq<char>>>,
) -> Seq<Seq<char>> {
    let c1 = match keywords {
        Some(k) => seq![keyword_condition(k)],
        None => Seq::empty(),
    };
    push_list(push_list(push_list(c1, "component"@, components), "labels"@, labels), "project"@, projects)
}

/// The conditions joined by AND, newest first.
pub open spec fn search_jql_of(conds: Seq<Seq<char>>) -> Seq<char> {
    if conds.len() == 0 {
        "order by created DESC"@
    } else {
        join(conds, " AND "@) + " order by created DESC"@
    }
}

pub open spec fn str_view(o: Option<&str>) -> Option<Seq<char>> {
    match o {
        Some(s) => Some(s@),
        None => None,
    }
}

pub open spec fn list_view(o: Option<&Vec<String>>) -> Option<Seq<Seq<char>>> {
    match o {
        Some(v) => Some(strs(v@)),
        None => None,
    }
}

fn quoted_list_string(items: &Vec<String>) -> (r: String)
    ensures
        r@ == quoted_list(strs(items@)),
{
    let mut quoted_items: Vec<String> = Vec::new();
    let mut k: usize = 0;
    while k < items.len()
        invariant
            k <= items.len(),
            quoted_items.len() == k,
            strs(quoted_items@) =~= strs(items@).map_values(|i: Seq<char>| quoted(i)).take(k as int),
        decreases items.len() - k,
    {
        let mut q = String::from_str("\"");
        q.append(items[k].as_str());
        q.append("\"");
        quoted_items.push(q);
        assert(strs(quoted_items@)[k as int] == quoted(strs(items@)[k as int]));
        k = k + 1;
    }
    assert(strs(items@).map_values(|i: Seq<char>| quoted(i)).take(k as int) =~= strs(items@).map_values(
        |i: Seq<char>| quoted(i),
    ));
    join_strings(&quoted_items, ",")
}

fn push_list_condition(conds: &mut Vec<String>, name: &str, items: Option<&Vec<String>>)
    ensures
        strs(final(conds)@) == push_list(strs(old(conds)@), name@, list_view(items)),
{
    match items {
        Some(v) => {
            let mut c = String::from_str(name);
            c.append(" in (");
            let list = quoted_list_string(v);
            c.append(list.as_str());
            c.append(")");
            let ghost before = strs(conds@);
            conds.push(c);
            assert(strs(conds@) =~= before.push(list_condition(name@, strs(v@))));
        },
        None => {},
    }
}

/// The JQL of a search over issues: the given filters (values already
/// split and trimmed) joined by AND, newest first.
pub fn search_jql(
    keywords: Option<&str>,
    components: Option<&Vec<String>>,
    labels: Option<&Vec<String>>,
    projects: Option<&Vec<String>>,
) -> (r: String)
    ensures
        r@ == search_jql_of(
            search_conditions(str_view(keywords), list_view(components), list_view(labels), list_view(projects)),
        ),
{
    let mut conds: Vec<String> = Vec::new();
    match keywords {
        Some(k) => {
            let mut c = String::from_str("(summary ~ \"");
            c.append(k);
            c.append("\" OR description ~ \"");
            c.append(k);
            c.append("\")");
            conds.push(c);
            assert(strs(conds@) =~= seq![keyword_condition(k@)]);
        },
        None => {
            assert(strs(conds@) =~= Seq::<Seq<char>>::empty());
        },
    }
    push_list_condition(&mut conds, "component", components);
    push_list_condition(&mut conds, "labels", labels);
    push_list_condition(&mut conds, "project", projects);
    if conds.len() == 0 {
        String::from_str("order by created DESC")
    } else {
        let mut r = join_strings(&conds, " AND ");
        r.append(" order by created DESC");
        r
    }
}

/// The comma-separated values of a filter, each trimmed.
pub open spec fn filter_values(s: Seq<char>) -> Seq<Seq<char>> {
    split_on(s, ',').map_values(|p: Seq<char>| trimmed(p))
}

pub open spec fn filter_view(o: Option<&str>) -> Option<Seq<Seq<char>>> {
    match o {
        Some(s) => Some(filter_values(s@)),
        None => None,
    }
}

fn filter_list(o: Option<&str>) -> (r: Option<Vec<String>>)
    ensures
        r is Some == o is Some,
        r matches Some(v) ==> strs(v@) == filter_values(o->Some_0@),
{
    match o {
        None => None,
        Some(s) => {
            let pieces = split_string(&String::from_str(s), ',');
            let mut out: Vec<String> = Vec::new();
            let mut k: usize = 0;
            while k < pieces.len()
                invariant
                    k <= pieces.len(),
                    out.len() == k,
                    strs(pieces@) == split_on(s@, ','),
                    strs(out@) =~= filter_values(s@).take(k as int),
                decreases pieces.len() - k,
            {
                let t = trim_text(pieces[k].as_str());
                out.push(t);
                assert(strs(out@)[k as int] == filter_values(s@)[k as int]);
                k = k + 1;
            }
            assert(filter_values(s@).take(k as int) =~= filter_values(s@));
            Some(out)
        },
    }
}

/// The JQL of a search over issues from its raw filters: components,
/// labels and projects are comma-separated, each value trimmed.
pub fn build_search_jql(
    keywords: Option<&str>,
    components: Option<&str>,
    labels: Option<&str>,
    projects: Option<&str>,
) -> (r: String)
    ensures
        r@ == search_jql_of(
            search_conditions(str_view(keywords), filter_view(components), filter_view(labels), filter_view(projects)),
        ),
{
    let c = filter_list(components);
    let l = filter_list(labels);
    let p = filter_list(projects);
    search_jql(keywords, c.as_ref(), l.as_ref(), p.as_ref())
}

} // verus!
