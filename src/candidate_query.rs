//! Candidate generation from an issue's relationship fields: predicate
//! groups, one fetch request for each, and their rendering as JQL.
use vstd::prelude::*;
use crate::jira_client::{Issue, IssueLink};
use crate::issue_contextualizer::{component_ids, labels, component_id_list};
use crate::text::{strs, join, join_strings, decimal, push_decimal, clone_strings};

verus! {

/// One filter condition of a predicate group.
#[derive(Debug, Clone)]
pub enum Condition {
    /// The issue's key is one of these.
    KeyIn(Vec<String>),
    /// The issue belongs to the epic with this id.
    EpicLink(u64),
    /// The issue's parent has this key.
    ParentIs(String),
    /// The issue has one of these component ids.
    ComponentIn(Vec<String>),
    /// The issue has one of these labels.
    LabelIn(Vec<String>),
}

/// Where a fetch looks for candidates.
#[derive(Debug, Clone)]
pub enum Scope {
    AnyProject,
    Project(String),
}

/// One fetch request: the disjunction of `conditions`, never the issue with
/// key `excluded_key`, within `scope`, returning `fields`.
#[derive(Debug, Clone)]
pub struct CandidateQuery {
    pub conditions: Vec<Condition>,
    pub excluded_key: String,
    pub scope: Scope,
    pub fields: Vec<String>,
}

pub enum ConditionView {
    KeyIn(Seq<Seq<char>>),
    EpicLink(u64),
    ParentIs(Seq<char>),
    ComponentIn(Seq<Seq<char>>),
    LabelIn(Seq<Seq<char>>),
}

pub enum ScopeView {
    AnyProject,
    Project(Seq<char>),
}

pub struct CandidateQueryView {
    pub conditions: Seq<ConditionView>,
    pub excluded_key: Seq<char>,
    pub scope: ScopeView,
    pub fields: Seq<Seq<char>>,
}

impl View for Condition {
    type V = ConditionView;

    open spec fn view(&self) -> ConditionView {
        match self {
            Condition::KeyIn(v) => ConditionView::KeyIn(strs(v@)),
            Condition::EpicLink(id) => ConditionView::EpicLink(*id),
            Condition::ParentIs(k) => ConditionView::ParentIs(k@),
            Condition::ComponentIn(v) => ConditionView::ComponentIn(strs(v@)),
            Condition::LabelIn(v) => ConditionView::LabelIn(strs(v@)),
        }
    }
}

impl View for Scope {
    type V = ScopeView;

    open spec fn view(&self) -> ScopeView {
        match self {
            Scope::AnyProject => ScopeView::AnyProject,
            Scope::Project(p) => ScopeView::Project(p@),
        }
    }
}

impl View for CandidateQuery {
    type V = CandidateQueryView;

    open spec fn view(&self) -> CandidateQueryView {
        CandidateQueryView {
            conditions: self.conditions@.map_values(|c: Condition| c@),
            excluded_key: self.excluded_key@,
            scope: self.scope@,
            fields: strs(self.fields@),
        }
    }
}

/// The fields that every candidate fetch asks for.
pub open spec fn candidate_fields() -> Seq<Seq<char>> {
    seq![
        "summary"@, "status"@, "issuetype"@, "components"@, "labels"@, "parent"@,
        "epic"@, "issuelinks"@, "project"@, "description"@, "comment"@, "creator"@,
    ]
}

/// Keys of the issues that link into `links`' owner, in link order.
pub open spec fn inward_keys(links: Seq<IssueLink>) -> Seq<Seq<char>>
    decreases links.len(),
{
    if links.len() == 0 {
        Seq::empty()
    } else {
        let rest = inward_keys(links.drop_last());
        match links.last().inward_issue {
            Some(i) => rest.push(i.key@),
            None => rest,
        }
    }
}

/// Keys included by name: the inbound-linked issues, then the parent.
pub open spec fn included_keys(i: Issue) -> Seq<Seq<char>> {
    let linked = match i.fields.issue_links {
        Some(links) => inward_keys(links@),
        None => Seq::empty(),
    };
    match i.fields.parent {
        Some(p) => linked.push(p.key@),
        None => linked,
    }
}

/// The cross-project group: linked issues and the parent by key, the epic,
/// and the parent's other children.
pub open spec fn cross_project_conditions(i: Issue) -> Seq<ConditionView> {
    let keys = included_keys(i);
    let c1 = if keys.len() > 0 { seq![ConditionView::KeyIn(keys)] } else { Seq::empty() };
    let c2 = match i.fields.epic {
        Some(e) => c1.push(ConditionView::EpicLink(e.id)),
        None => c1,
    };
    match i.fields.parent {
        Some(p) => c2.push(ConditionView::ParentIs(p.key@)),
        None => c2,
    }
}

/// The same-project group: shared components, shared labels.
pub open spec fn project_conditions(i: Issue) -> Seq<ConditionView> {
    let c1 = if i.fields.components@.len() > 0 {
        seq![ConditionView::ComponentIn(component_ids(i))]
    } else {
        Seq::empty()
    };
    if i.fields.labels@.len() > 0 {
        c1.push(ConditionView::LabelIn(labels(i)))
    } else {
        c1
    }
}

/// At most two fetches: the cross-project group where it has a condition,
/// then the same-project group where it has one; the seed itself excluded
/// from both.
pub open spec fn candidate_queries_of(i: Issue) -> Seq<CandidateQueryView> {
    let cross = cross_project_conditions(i);
    let local = project_conditions(i);
    let q1 = if cross.len() > 0 {
        seq![
            CandidateQueryView {
                conditions: cross,
                excluded_key: i.key@,
                scope: ScopeView::AnyProject,
                fields: candidate_fields(),
            },
        ]
    } else {
        Seq::empty()
    };
    if local.len() > 0 {
        q1.push(
            CandidateQueryView {
                conditions: local,
                excluded_key: i.key@,
                scope: ScopeView::Project(i.fields.project.key@),
                fields: candidate_fields(),
            },
        )
    } else {
        q1
    }
}

fn candidate_field_list() -> (r: Vec<String>)
    ensures
        strs(r@) == candidate_fields(),
{
    let r = vec![
        String::from_str("summary"),
        String::from_str("status"),
        String::from_str("issuetype"),
        String::from_str("components"),
        String::from_str("labels"),
        String::from_str("parent"),
        String::from_str("epic"),
        String::from_str("issuelinks"),
        String::from_str("project"),
        String::from_str("description"),
        String::from_str("comment"),
        String::from_str("creator"),
    ];
    assert(strs(r@) =~= candidate_fields());
    r
}

fn included_key_list(i: &Issue) -> (r: Vec<String>)
    ensures
        strs(r@) == included_keys(*i),
{
    let mut r: Vec<String> = Vec::new();
    match &i.fields.issue_links {
        Some(links) => {
            let mut k: usize = 0;
            while k < links.len()
                invariant
                    k <= links.len(),
                    strs(r@) == inward_keys(links@.take(k as int)),
                decreases links.len() - k,
            {
                proof {
                    assert(links@.take(k + 1).drop_last() =~= links@.take(k as int));
                    assert(links@.take(k + 1).last() == links@[k as int]);
                }
                match &links[k].inward_issue {
                    Some(inward) => {
                        r.push(inward.key.clone());
                        assert(strs(r@) =~= inward_keys(links@.take(k as int)).push(inward.key@));
                    },
                    None => {},
                }
                k = k + 1;
            }
            assert(links@.take(k as int) =~= links@);
        },
        None => {
            assert(strs(r@) =~= Seq::<Seq<char>>::empty());
        },
    }
    match &i.fields.parent {
        Some(p) => {
            let ghost before = strs(r@);
            r.push(p.key.clone());
            assert(strs(r@) =~= before.push(p.key@));
        },
        None => {},
    }
    r
}

/// The fetch requests that gather candidates related to `issue`, in the
/// order: cross-project group, same-project group; empty where the issue
/// has no link, epic, parent, component or label.
pub fn candidate_queries(issue: &Issue) -> (r: Vec<CandidateQuery>)
    ensures
        r@.map_values(|q: CandidateQuery| q@) == candidate_queries_of(*issue),
{
    let ghost i = *issue;
    let mut cross: Vec<Condition> = Vec::new();
    let keys = included_key_list(issue);
    if keys.len() > 0 {
        cross.push(Condition::KeyIn(keys));
    }
    let ghost c1 = if included_keys(i).len() > 0 {
        seq![ConditionView::KeyIn(included_keys(i))]
    } else {
        Seq::<ConditionView>::empty()
    };
    assert(cross@.map_values(|c: Condition| c@) =~= c1);
    match &issue.fields.epic {
        Some(e) => {
            cross.push(Condition::EpicLink(e.id));
        },
        None => {},
    }
    let ghost c2 = match i.fields.epic {
        Some(e) => c1.push(ConditionView::EpicLink(e.id)),
        None => c1,
    };
    assert(cross@.map_values(|c: Condition| c@) =~= c2);
    match &issue.fields.parent {
        Some(p) => {
            cross.push(Condition::ParentIs(p.key.clone()));
        },
        None => {},
    }
    assert(cross@.map_values(|c: Condition| c@) =~= cross_project_conditions(i));
    let mut local: Vec<Condition> = Vec::new();
    if issue.fields.components.len() > 0 {
        local.push(Condition::ComponentIn(component_id_list(issue)));
    }
    let ghost d1 = if i.fields.components@.len() > 0 {
        seq![ConditionView::ComponentIn(component_ids(i))]
    } else {
        Seq::<ConditionView>::empty()
    };
    assert(local@.map_values(|c: Condition| c@) =~= d1);
    if issue.fields.labels.len() > 0 {
        local.push(Condition::LabelIn(clone_strings(&issue.fields.labels)));
    }
    assert(local@.map_values(|c: Condition| c@) =~= project_conditions(i));
    let mut r: Vec<CandidateQuery> = Vec::new();
    let cross_len = cross.len();
    if cross_len > 0 {
        r.push(
            CandidateQuery {
                conditions: cross,
                excluded_key: issue.key.clone(),
                scope: Scope::AnyProject,
                fields: candidate_field_list(),
            },
        );
    }
    let ghost q1 = if cross_project_conditions(i).len() > 0 {
        seq![
            CandidateQueryView {
                conditions: cross_project_conditions(i),
                excluded_key: i.key@,
                scope: ScopeView::AnyProject,
                fields: candidate_fields(),
            },
        ]
    } else {
        Seq::<CandidateQueryView>::empty()
    };
    assert(r@.map_values(|q: CandidateQuery| q@) =~= q1);
    if local.len() > 0 {
        r.push(
            CandidateQuery {
                conditions: local,
                excluded_key: issue.key.clone(),
                scope: Scope::Project(issue.fields.project.key.clone()),
                fields: candidate_field_list(),
            },
        );
    }
    assert(r@.map_values(|q: CandidateQuery| q@) =~= candidate_queries_of(i));
    r
}

/// An issue with no parent, epic, links, components or labels yields no
/// fetch request.
pub proof fn lemma_no_relations_no_queries(i: Issue)
    requires
        i.fields.parent is None,
        i.fields.epic is None,
        i.fields.issue_links is None || i.fields.issue_links->Some_0@.len() == 0,
        i.fields.components@.len() == 0,
        i.fields.labels@.len() == 0,
    ensures
        candidate_queries_of(i).len() == 0,
{
}

/// An issue whose only relationship field is its components yields exactly
/// one fetch request, for its components, scoped to its own project.
pub proof fn lemma_components_only_one_project_query(i: Issue)
    requires
        i.fields.parent is None,
        i.fields.epic is None,
        i.fields.issue_links is None || i.fields.issue_links->Some_0@.len() == 0,
        i.fields.components@.len() > 0,
        i.fields.labels@.len() == 0,
    ensures
        candidate_queries_of(i).len() == 1,
        candidate_queries_of(i)[0].scope == ScopeView::Project(i.fields.project.key@),
        candidate_queries_of(i)[0].conditions == seq![ConditionView::ComponentIn(component_ids(i))],
{
}

/// There are at most two fetch requests, each with at least one condition,
/// each excluding the seed; the cross-project one comes first.
pub proof fn lemma_queries_shape(i: Issue)
    ensures
        candidate_queries_of(i).len() <= 2,
        forall|k: int|
            0 <= k < candidate_queries_of(i).len() ==> (#[trigger] candidate_queries_of(i)[k]).excluded_key
                == i.key@ && candidate_queries_of(i)[k].conditions.len() > 0,
        candidate_queries_of(i).len() == 2 ==> candidate_queries_of(i)[0].scope == ScopeView::AnyProject
            && candidate_queries_of(i)[1].scope == ScopeView::Project(i.fields.project.key@),
{
}

/// Every fetch request asks for the same fields.
pub proof fn lemma_queries_fields(i: Issue)
    ensures
        forall|k: int|
            0 <= k < candidate_queries_of(i).len() ==> (#[trigger] candidate_queries_of(i)[k]).fields
                == candidate_fields(),
{
}

pub open spec fn quoted(s: Seq<char>) -> Seq<char> {
    "\""@ + s + "\""@
}

/// A condition in JQL.
pub open spec fn condition_jql(c: ConditionView) -> Seq<char> {
    match c {
        ConditionView::KeyIn(keys) => "key in ("@ + join(keys.map_values(|k: Seq<char>| quoted(k)), ","@)
            + ")"@,
        ConditionView::EpicLink(id) => "\"Epic Link\" = "@ + decimal(id as nat),
        ConditionView::ParentIs(k) => "parent = "@ + k,
        ConditionView::ComponentIn(ids) => "component in ("@ + join(ids, ","@) + ")"@,
        ConditionView::LabelIn(ls) => "labels in ("@ + join(ls, ","@) + ")"@,
    }
}

/// A fetch request in JQL: the conditions joined by OR, the seed excluded,
/// the project filter where the scope is one project, newest first.
pub open spec fn query_jql(q: CandidateQueryView) -> Seq<char> {
    "("@ + join(q.conditions.map_values(|c: ConditionView| condition_jql(c)), " OR "@)
        + ") AND key NOT in ("@ + quoted(q.excluded_key) + ")"@ + match q.scope {
        ScopeView::AnyProject => Seq::empty(),
        ScopeView::Project(p) => " AND project = "@ + quoted(p),
    } + " ORDER BY updated DESC"@
}

fn quote(s: &String) -> (r: String)
    ensures
        r@ == quoted(s@),
{
    let mut r = String::from_str("\"");
    r.append(s.as_str());
    r.append("\"");
    r
}

fn quote_all(v: &Vec<String>) -> (r: Vec<String>)
    ensures
        strs(r@) == strs(v@).map_values(|k: Seq<char>| quoted(k)),
{
    let mut r: Vec<String> = Vec::new();
    let mut k: usize = 0;
    while k < v.len()
        invariant
            k <= v.len(),
            r.len() == k,
            strs(r@) =~= strs(v@).map_values(|k: Seq<char>| quoted(k)).take(k as int),
        decreases v.len() - k,
    {
        let q = quote(&v[k]);
        r.push(q);
        proof {
            assert(strs(r@)[k as int] == quoted(strs(v@)[k as int]));
        }
        k = k + 1;
    }
    assert(strs(v@).map_values(|k: Seq<char>| quoted(k)).take(k as int) =~= strs(v@).map_values(
        |k: Seq<char>| quoted(k),
    ));
    r
}

impl Condition {
    /// This condition in JQL.
    pub fn to_jql(&self) -> (r: String)
        ensures
            r@ == condition_jql(self@),
    {
        match self {
            Condition::KeyIn(keys) => {
                let mut r = String::from_str("key in (");
                let joined = join_strings(&quote_all(keys), ",");
                r.append(joined.as_str());
                r.append(")");
                r
            },
            Condition::EpicLink(id) => {
                let mut r = String::from_str("\"Epic Link\" = ");
                push_decimal(&mut r, *id as u128);
                r
            },
            Condition::ParentIs(k) => {
                let mut r = String::from_str("parent = ");
                r.append(k.as_str());
                r
            },
            Condition::ComponentIn(ids) => {
                let mut r = String::from_str("component in (");
                let joined = join_strings(ids, ",");
                r.append(joined.as_str());
                r.append(")");
                r
            },
            Condition::LabelIn(ls) => {
                let mut r = String::from_str("labels in (");
                let joined = join_strings(ls, ",");
                r.append(joined.as_str());
                r.append(")");
                r
            },
        }
    }
}

impl CandidateQuery {
    /// This fetch request in JQL.
    pub fn to_jql(&self) -> (r: String)
        ensures
            r@ == query_jql(self@),
    {
        let mut parts: Vec<String> = Vec::new();
        let mut k: usize = 0;
        let ghost conds = self@.conditions.map_values(|c: ConditionView| condition_jql(c));
        while k < self.conditions.len()
            invariant
                k <= self.conditions.len(),
                parts.len() == k,
                conds == self@.conditions.map_values(|c: ConditionView| condition_jql(c)),
                strs(parts@) =~= conds.take(k as int),
            decreases self.conditions.len() - k,
        {
            let part = self.conditions[k].to_jql();
            parts.push(part);
            proof {
                assert(strs(parts@)[k as int] == conds[k as int]);
            }
            k = k + 1;
        }
        assert(conds.take(k as int) =~= conds);
        let mut r = String::from_str("(");
        let joined = join_strings(&parts, " OR ");
        r.append(joined.as_str());
        r.append(") AND key NOT in (");
        let excluded = quote(&self.excluded_key);
        r.append(excluded.as_str());
        r.append(")");
        let ghost before_scope = r@;
        match &self.scope {
            Scope::AnyProject => {},
            Scope::Project(p) => {
                r.append(" AND project = ");
                let project = quote(p);
                r.append(project.as_str());
            },
        }
        let ghost scope_part = match self@.scope {
            ScopeView::AnyProject => Seq::<char>::empty(),
            ScopeView::Project(p) => " AND project = "@ + quoted(p),
        };
        assert(r@ =~= before_scope + scope_part);
        r.append(" ORDER BY updated DESC");
        r
    }
}

/// The candidate fetches for `issue` as (JQL, fields to return) pairs, in
/// the order of `candidate_queries`.
pub fn build_similarity_query(issue: &Issue) -> (r: Vec<(String, Vec<String>)>)
    ensures
        r.len() == candidate_queries_of(*issue).len(),
        forall|k: int|
            0 <= k < r.len() ==> (#[trigger] r@[k]).0@ == query_jql(candidate_queries_of(*issue)[k])
                && strs(r@[k].1@) == candidate_queries_of(*issue)[k].fields,
{
    let queries = candidate_queries(issue);
    let mut r: Vec<(String, Vec<String>)> = Vec::new();
    let mut k: usize = 0;
    while k < queries.len()
        invariant
            k <= queries.len(),
            r.len() == k,
            queries@.map_values(|q: CandidateQuery| q@) == candidate_queries_of(*issue),
            forall|j: int|
                0 <= j < k ==> (#[trigger] r@[j]).0@ == query_jql(candidate_queries_of(*issue)[j])
                    && strs(r@[j].1@) == candidate_queries_of(*issue)[j].fields,
        decreases queries.len() - k,
    {
        assert(queries@[k as int]@ == candidate_queries_of(*issue)[k as int]);
        let jql = queries[k].to_jql();
        let fields = clone_strings(&queries[k].fields);
        r.push((jql, fields));
        k = k + 1;
    }
    r
}

} // verus!
