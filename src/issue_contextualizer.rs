//! Heuristic relevance scoring of a candidate issue against a seed issue,
//! its justification text, and ranking of candidates by score.
use vstd::prelude::*;
use crate::jira_client::{Issue, IdNameWrapper, PullRequest};
use crate::text::{strs, join, join_strings, contains_string, decimal, push_decimal, digits, push_char};

verus! {

/// Scores are exact tenths of a point: a direct link weighs 5.0, that is 50.
pub const DIRECT_LINK_WEIGHT: u128 = 50;
pub const SAME_EPIC_WEIGHT: u128 = 40;
pub const PARENT_WEIGHT: u128 = 35;
pub const SIBLING_WEIGHT: u128 = 30;
pub const COMPONENT_WEIGHT: u128 = 5;
pub const LABEL_WEIGHT: u128 = 3;

pub const DIRECT_LINK_REASON: &'static str = "Directly linked issue";
pub const SAME_EPIC_REASON: &'static str = "Same epic";
pub const PARENT_REASON: &'static str = "This is the parent ticket";
pub const SIBLING_REASON: &'static str = "Shares same parent";
pub const COMPONENTS_REASON: &'static str = "Shared components: ";
pub const LABELS_REASON: &'static str = "Shared labels: ";
pub const FALLBACK_REASON: &'static str = "Similar based on content and description";
pub const REASON_SEPARATOR: &'static str = "; ";
pub const LIST_SEPARATOR: &'static str = ", ";

/// Scoring and justification of candidate issues against a seed issue.
pub struct IssueContextualizer {}

/// Positions of `a` whose value also occurs in `b` and not earlier in `a`:
/// one position for each distinct value that the two sequences share.
pub open spec fn shared_indices(a: Seq<Seq<char>>, b: Seq<Seq<char>>) -> Seq<int>
    decreases a.len(),
{
    if a.len() == 0 {
        Seq::empty()
    } else {
        let p = a.drop_last();
        let rest = shared_indices(p, b);
        if b.contains(a.last()) && !p.contains(a.last()) {
            rest.push(p.len() as int)
        } else {
            rest
        }
    }
}

/// The number of distinct values that `a` and `b` have in common.
pub open spec fn shared_count(a: Seq<Seq<char>>, b: Seq<Seq<char>>) -> nat {
    a.to_set().intersect(b.to_set()).len()
}

pub open spec fn component_ids(i: Issue) -> Seq<Seq<char>> {
    i.fields.components@.map_values(|c: IdNameWrapper| c.id@)
}

pub open spec fn labels(i: Issue) -> Seq<Seq<char>> {
    strs(i.fields.labels@)
}

/// The seed has an inbound link from the issue with key `key`.
pub open spec fn links_to(seed: Issue, key: Seq<char>) -> bool {
    match seed.fields.issue_links {
        Some(links) => exists|k: int|
            0 <= k < links@.len() && (#[trigger] links@[k]).inward_issue is Some
                && links@[k].inward_issue->Some_0.key@ == key,
        None => false,
    }
}

pub open spec fn same_epic(seed: Issue, other: Issue) -> bool {
    seed.fields.epic is Some && other.fields.epic is Some
        && seed.fields.epic->Some_0.id == other.fields.epic->Some_0.id
}

/// `other` is the seed's parent.
pub open spec fn is_parent(seed: Issue, other: Issue) -> bool {
    seed.fields.parent is Some && other.key@ == seed.fields.parent->Some_0.key@
}

/// `other` has the seed's parent as its own parent, and is not that parent.
pub open spec fn is_sibling(seed: Issue, other: Issue) -> bool {
    seed.fields.parent is Some && !is_parent(seed, other) && other.fields.parent is Some
        && other.fields.parent->Some_0.key@ == seed.fields.parent->Some_0.key@
}

pub open spec fn same_project(seed: Issue, other: Issue) -> bool {
    seed.fields.project.key@ == other.fields.project.key@
}

pub open spec fn shared_components(seed: Issue, other: Issue) -> nat {
    if same_project(seed, other) {
        shared_count(component_ids(seed), component_ids(other))
    } else {
        0
    }
}

pub open spec fn shared_labels(seed: Issue, other: Issue) -> nat {
    if same_project(seed, other) {
        shared_count(labels(seed), labels(other))
    } else {
        0
    }
}

/// The relevance of `other` to `seed`, in tenths of a point: the sum of the
/// weights of the signals that hold.
pub open spec fn similarity_score(seed: Issue, other: Issue) -> int {
    (if links_to(seed, other.key@) { DIRECT_LINK_WEIGHT as int } else { 0 })
    + (if same_epic(seed, other) { SAME_EPIC_WEIGHT as int } else { 0 })
    + (if is_parent(seed, other) { PARENT_WEIGHT as int }
       else if is_sibling(seed, other) { SIBLING_WEIGHT as int } else { 0 })
    + COMPONENT_WEIGHT * shared_components(seed, other)
    + LABEL_WEIGHT * shared_labels(seed, other)
}

/// Names of the seed's components whose ids the other issue shares, once
/// per id, in the seed's order.
pub open spec fn shared_component_names(seed: Issue, other: Issue) -> Seq<Seq<char>> {
    shared_indices(component_ids(seed), component_ids(other)).map_values(
        |k: int| seed.fields.components@[k].name@,
    )
}

/// The seed's labels that the other issue shares, once each, in the seed's order.
pub open spec fn shared_label_names(seed: Issue, other: Issue) -> Seq<Seq<char>> {
    shared_indices(labels(seed), labels(other)).map_values(|k: int| labels(seed)[k])
}

/// One phrase for each signal that holds, in the order of the weights.
pub open spec fn reason_phrases(seed: Issue, other: Issue) -> Seq<Seq<char>> {
    let with_link = if links_to(seed, other.key@) { seq![DIRECT_LINK_REASON@] } else { Seq::empty() };
    let with_epic = if same_epic(seed, other) { with_link.push(SAME_EPIC_REASON@) } else { with_link };
    let with_parent = if is_parent(seed, other) {
        with_epic.push(PARENT_REASON@)
    } else if is_sibling(seed, other) {
        with_epic.push(SIBLING_REASON@)
    } else {
        with_epic
    };
    let with_components = if shared_components(seed, other) > 0 {
        with_parent.push(COMPONENTS_REASON@ + join(shared_component_names(seed, other), LIST_SEPARATOR@))
    } else {
        with_parent
    };
    if shared_labels(seed, other) > 0 {
        with_components.push(LABELS_REASON@ + join(shared_label_names(seed, other), LIST_SEPARATOR@))
    } else {
        with_components
    }
}

/// The justification text: the phrases joined by "; ", or the fallback phrase.
pub open spec fn similarity_reasons(seed: Issue, other: Issue) -> Seq<char> {
    let ps = reason_phrases(seed, other);
    if ps.len() == 0 {
        FALLBACK_REASON@
    } else {
        join(ps, REASON_SEPARATOR@)
    }
}

/// An issue with no link, epic or parent relation to the seed, in another
/// project, scores zero and is justified by the fallback phrase alone.
pub proof fn lemma_unrelated_scores_zero(seed: Issue, other: Issue)
    requires
        !links_to(seed, other.key@),
        !same_epic(seed, other),
        seed.fields.parent is None || (other.key@ != seed.fields.parent->Some_0.key@
            && (other.fields.parent is None
                || other.fields.parent->Some_0.key@ != seed.fields.parent->Some_0.key@)),
        !same_project(seed, other),
    ensures
        similarity_score(seed, other) == 0,
        similarity_reasons(seed, other) == FALLBACK_REASON@,
{
    assert(reason_phrases(seed, other) =~= Seq::<Seq<char>>::empty());
}

/// Every signal that holds of the first pair holds of the second, and the
/// second shares at least as many components and labels: the second pair
/// scores at least as much.
pub open spec fn signals_within(s1: Issue, o1: Issue, s2: Issue, o2: Issue) -> bool {
    &&& links_to(s1, o1.key@) ==> links_to(s2, o2.key@)
    &&& same_epic(s1, o1) ==> same_epic(s2, o2)
    &&& is_parent(s1, o1) ==> is_parent(s2, o2)
    &&& is_sibling(s1, o1) ==> is_sibling(s2, o2) || is_parent(s2, o2)
    &&& shared_components(s1, o1) <= shared_components(s2, o2)
    &&& shared_labels(s1, o1) <= shared_labels(s2, o2)
}

/// Adding signals never lowers the score, and each signal adds its weight.
pub proof fn lemma_score_monotone(s1: Issue, o1: Issue, s2: Issue, o2: Issue)
    requires
        signals_within(s1, o1, s2, o2),
    ensures
        similarity_score(s1, o1) <= similarity_score(s2, o2),
        similarity_score(s1, o1) >= 0,
        links_to(s2, o2.key@) && !links_to(s1, o1.key@) ==> similarity_score(s1, o1) + DIRECT_LINK_WEIGHT
            <= similarity_score(s2, o2),
        same_epic(s2, o2) && !same_epic(s1, o1) ==> similarity_score(s1, o1) + SAME_EPIC_WEIGHT
            <= similarity_score(s2, o2),
{
}

/// A direct link alone outranks a candidate whose only signals are shared
/// components and labels, as long as those weigh less than the link: a
/// policy of the weights, which ten shared components already break.
pub proof fn lemma_direct_link_outranks_overlaps(seed: Issue, linked: Issue, overlapping: Issue)
    requires
        links_to(seed, linked.key@),
        !links_to(seed, overlapping.key@),
        !same_epic(seed, overlapping),
        !is_parent(seed, overlapping),
        !is_sibling(seed, overlapping),
        COMPONENT_WEIGHT * shared_components(seed, overlapping) + LABEL_WEIGHT * shared_labels(seed, overlapping)
            < DIRECT_LINK_WEIGHT,
    ensures
        similarity_score(seed, linked) > similarity_score(seed, overlapping),
{
}

/// The number of shared positions is the number of shared distinct values.
pub proof fn lemma_shared_indices_len(a: Seq<Seq<char>>, b: Seq<Seq<char>>)
    ensures
        shared_indices(a, b).len() == shared_count(a, b),
        forall|k: int| 0 <= k < shared_indices(a, b).len() ==> 0 <= #[trigger] shared_indices(a, b)[k] < a.len(),
    decreases a.len(),
{
    if a.len() == 0 {
        assert(a.to_set() =~= Set::empty());
        assert(a.to_set().intersect(b.to_set()) =~= Set::empty());
    } else {
        let p = a.drop_last();
        let x = a.last();
        lemma_shared_indices_len(p, b);
        assert(a =~= p.push(x));
        p.lemma_push_to_set_commute(x);
        let s = p.to_set().intersect(b.to_set());
        vstd::seq_lib::seq_to_set_is_finite(p);
        assert(s.finite());
        if b.contains(x) && !p.contains(x) {
            assert(a.to_set().intersect(b.to_set()) =~= s.insert(x));
            assert(!s.contains(x));
        } else if p.contains(x) {
            assert(p.to_set().contains(x));
            assert(a.to_set().intersect(b.to_set()) =~= s);
        } else {
            assert(!b.to_set().contains(x));
            assert(a.to_set().intersect(b.to_set()) =~= s);
        }
    }
}

/// Positions of `a` that start a value shared with `b` (see `shared_indices`).
pub fn shared_positions(a: &Vec<String>, b: &Vec<String>) -> (r: Vec<usize>)
    ensures
        r@.map_values(|k: usize| k as int) == shared_indices(strs(a@), strs(b@)),
        r.len() == shared_count(strs(a@), strs(b@)),
        forall|k: int| 0 <= k < r.len() ==> r@[k] < a.len(),
{
    let mut r: Vec<usize> = Vec::new();
    let mut i: usize = 0;
    let ghost sb = strs(b@);
    while i < a.len()
        invariant
            i <= a.len(),
            sb == strs(b@),
            r@.map_values(|k: usize| k as int) == shared_indices(strs(a@).take(i as int), sb),
        decreases a.len() - i,
    {
        let ghost sa = strs(a@);
        proof {
            assert(sa.take(i + 1).drop_last() =~= sa.take(i as int));
            assert(sa.take(i + 1).last() == a@[i as int]@);
            assert(sb.contains(a@[i as int]@) == strs(b@).take(b.len() as int).contains(a@[i as int]@)) by {
                assert(strs(b@).take(b.len() as int) =~= sb);
            }
        }
        let in_b = contains_string(b, b.len(), &a[i]);
        let earlier = contains_string(a, i, &a[i]);
        if in_b && !earlier {
            r.push(i);
            proof {
                assert(r@.map_values(|k: usize| k as int) =~= shared_indices(sa.take(i as int), sb).push(
                    i as int,
                ));
            }
        }
        i = i + 1;
    }
    proof {
        assert(strs(a@).take(a.len() as int) =~= strs(a@));
        lemma_shared_indices_len(strs(a@), strs(b@));
        assert forall|k: int| 0 <= k < r.len() implies r@[k] < a.len() by {
            assert(r@.map_values(|k: usize| k as int)[k] == r@[k] as int);
        }
    }
    r
}

/// The ids of an issue's components, in order.
pub(crate) fn component_id_list(i: &Issue) -> (r: Vec<String>)
    ensures
        strs(r@) == component_ids(*i),
{
    let mut r: Vec<String> = Vec::new();
    let mut k: usize = 0;
    while k < i.fields.components.len()
        invariant
            k <= i.fields.components.len(),
            r.len() == k,
            strs(r@) =~= component_ids(*i).take(k as int),
        decreases i.fields.components.len() - k,
    {
        let id = i.fields.components[k].id.clone();
        r.push(id);
        proof {
            assert(r@[k as int] == i.fields.components@[k as int].id);
            assert(strs(r@)[k as int] == component_ids(*i)[k as int]);
        }
        k = k + 1;
    }
    proof {
        assert(component_ids(*i).take(k as int) =~= component_ids(*i));
    }
    r
}

/// Whether the seed has an inbound link from the issue with key `key`.
fn has_inward_link(seed: &Issue, key: &String) -> (r: bool)
    ensures
        r == links_to(*seed, key@),
{
    match &seed.fields.issue_links {
        None => false,
        Some(links) => {
            let mut k: usize = 0;
            while k < links.len()
                invariant
                    k <= links.len(),
                    seed.fields.issue_links == Some(*links),
                    forall|j: int|
                        0 <= j < k ==> !((#[trigger] links@[j]).inward_issue is Some
                            && links@[j].inward_issue->Some_0.key@ == key@),
                decreases links.len() - k,
            {
                match &links[k].inward_issue {
                    Some(inward) => {
                        if inward.key == *key {
                            return true;
                        }
                    },
                    None => {},
                }
                k = k + 1;
            }
            false
        },
    }
}

fn has_same_epic(seed: &Issue, other: &Issue) -> (r: bool)
    ensures
        r == same_epic(*seed, *other),
{
    match (&seed.fields.epic, &other.fields.epic) {
        (Some(e), Some(oe)) => e.id == oe.id,
        _ => false,
    }
}

/// 1 where `other` is the seed's parent, 2 where it is a sibling, else 0.
fn parent_relation(seed: &Issue, other: &Issue) -> (r: u8)
    ensures
        r == 1 <==> is_parent(*seed, *other),
        r == 2 <==> is_sibling(*seed, *other),
        r <= 2,
{
    match &seed.fields.parent {
        None => 0,
        Some(parent) => {
            if other.key == parent.key {
                1
            } else {
                match &other.fields.parent {
                    Some(op) => if op.key == parent.key { 2 } else { 0 },
                    None => 0,
                }
            }
        },
    }
}

/// Positions in the seed's component list of the component ids shared with
/// `other`, or none where the two issues are in different projects.
fn shared_component_positions(seed: &Issue, other: &Issue) -> (r: Vec<usize>)
    ensures
        same_project(*seed, *other) ==> r@.map_values(|k: usize| k as int) == shared_indices(
            component_ids(*seed),
            component_ids(*other),
        ),
        !same_project(*seed, *other) ==> r.len() == 0,
        r.len() == shared_components(*seed, *other),
        forall|k: int| 0 <= k < r.len() ==> r@[k] < seed.fields.components.len(),
{
    if seed.fields.project.key == other.fields.project.key {
        let a = component_id_list(seed);
        let b = component_id_list(other);
        shared_positions(&a, &b)
    } else {
        Vec::new()
    }
}

/// Positions in the seed's label list of the labels shared with `other`, or
/// none where the two issues are in different projects.
fn shared_label_positions(seed: &Issue, other: &Issue) -> (r: Vec<usize>)
    ensures
        same_project(*seed, *other) ==> r@.map_values(|k: usize| k as int) == shared_indices(
            labels(*seed),
            labels(*other),
        ),
        !same_project(*seed, *other) ==> r.len() == 0,
        r.len() == shared_labels(*seed, *other),
        forall|k: int| 0 <= k < r.len() ==> r@[k] < seed.fields.labels.len(),
{
    if seed.fields.project.key == other.fields.project.key {
        shared_positions(&seed.fields.labels, &other.fields.labels)
    } else {
        Vec::new()
    }
}

/// The names of the seed's components at the given positions.
fn component_names_at(seed: &Issue, positions: &Vec<usize>) -> (r: Vec<String>)
    requires
        forall|k: int| 0 <= k < positions.len() ==> positions@[k] < seed.fields.components.len(),
    ensures
        strs(r@) == positions@.map_values(|k: usize| seed.fields.components@[k as int].name@),
{
    let mut r: Vec<String> = Vec::new();
    let mut k: usize = 0;
    while k < positions.len()
        invariant
            k <= positions.len(),
            r.len() == k,
            forall|j: int| 0 <= j < positions.len() ==> positions@[j] < seed.fields.components.len(),
            strs(r@) =~= positions@.map_values(|k: usize| seed.fields.components@[k as int].name@).take(k as int),
        decreases positions.len() - k,
    {
        let name = seed.fields.components[positions[k]].name.clone();
        r.push(name);
        proof {
            assert(strs(r@)[k as int] == seed.fields.components@[positions@[k as int] as int].name@);
        }
        k = k + 1;
    }
    proof {
        let all = positions@.map_values(|k: usize| seed.fields.components@[k as int].name@);
        assert(all.take(k as int) =~= all);
    }
    r
}

/// The seed's labels at the given positions.
fn labels_at(seed: &Issue, positions: &Vec<usize>) -> (r: Vec<String>)
    requires
        forall|k: int| 0 <= k < positions.len() ==> positions@[k] < seed.fields.labels.len(),
    ensures
        strs(r@) == positions@.map_values(|k: usize| labels(*seed)[k as int]),
{
    let mut r: Vec<String> = Vec::new();
    let mut k: usize = 0;
    while k < positions.len()
        invariant
            k <= positions.len(),
            r.len() == k,
            forall|j: int| 0 <= j < positions.len() ==> positions@[j] < seed.fields.labels.len(),
            strs(r@) =~= positions@.map_values(|k: usize| labels(*seed)[k as int]).take(k as int),
        decreases positions.len() - k,
    {
        let label = seed.fields.labels[positions[k]].clone();
        r.push(label);
        proof {
            assert(strs(r@)[k as int] == labels(*seed)[positions@[k as int] as int]);
        }
        k = k + 1;
    }
    proof {
        let all = positions@.map_values(|k: usize| labels(*seed)[k as int]);
        assert(all.take(k as int) =~= all);
    }
    r
}

/// Position `a` comes before position `b`: a higher key, or an equal key
/// and an earlier position.
pub open spec fn ranked_before(keys: Seq<int>, a: int, b: int) -> bool {
    keys[a] > keys[b] || (keys[a] == keys[b] && a < b)
}

/// `order` lists the positions of `keys` by descending key, equal keys in
/// their given order: the result of a stable sort, which this pins down.
pub open spec fn ranks(keys: Seq<int>, order: Seq<int>) -> bool {
    &&& order.len() == keys.len()
    &&& forall|i: int| 0 <= i < order.len() ==> 0 <= #[trigger] order[i] < keys.len()
    &&& forall|i: int, j: int|
        0 <= i < j < order.len() ==> ranked_before(keys, #[trigger] order[i], #[trigger] order[j])
}

/// A ranking lists scores that never increase, keeps equal scores in their
/// given order, and lists no position twice.
pub proof fn lemma_ranking_sorted_and_stable(keys: Seq<int>, order: Seq<int>)
    requires
        ranks(keys, order),
    ensures
        forall|i: int, j: int| 0 <= i < j < order.len() ==> keys[#[trigger] order[i]] >= keys[#[trigger] order[j]],
        forall|i: int, j: int|
            0 <= i < j < order.len() && keys[order[i]] == keys[order[j]] ==> #[trigger] order[i] < #[trigger] order[j],
        forall|i: int, j: int| 0 <= i < j < order.len() ==> #[trigger] order[i] != #[trigger] order[j],
{
    assert forall|i: int, j: int| 0 <= i < j < order.len() implies #[trigger] order[i] != #[trigger] order[j] by {
        assert(ranked_before(keys, order[i], order[j]));
    }
}

pub open spec fn score_keys(seed: Issue, candidates: Seq<&Issue>) -> Seq<int> {
    candidates.map_values(|c: &Issue| similarity_score(seed, *c))
}

/// The candidates paired with their scores, in the order `order` gives.
pub open spec fn ranked_candidates<'a>(seed: Issue, candidates: Seq<&'a Issue>, order: Seq<int>) -> Seq<
    (&'a Issue, u128),
> {
    order.map_values(|k: int| (candidates[k], similarity_score(seed, *candidates[k]) as u128))
}

/// The entries whose score reaches `minimum`, where one is given, and of
/// those the first `max_count`, where one is given.
pub open spec fn selected<'a>(
    ranked: Seq<(&'a Issue, u128)>,
    minimum: Option<u128>,
    max_count: Option<usize>,
) -> Seq<(&'a Issue, u128)> {
    let kept = match minimum {
        Some(m) => ranked.filter(|e: (&'a Issue, u128)| e.1 >= m),
        None => ranked,
    };
    match max_count {
        Some(c) => if kept.len() > c { kept.take(c as int) } else { kept },
        None => kept,
    }
}

/// The positions of `keys` in the order of a stable sort by descending key.
pub fn rank_positions(keys: &Vec<u128>) -> (r: Vec<usize>)
    ensures
        ranks(keys@.map_values(|x: u128| x as int), r@.map_values(|k: usize| k as int)),
{
    let ghost ks = keys@.map_values(|x: u128| x as int);
    let mut r: Vec<usize> = Vec::new();
    let mut i: usize = 0;
    while i < keys.len()
        invariant
            i <= keys.len(),
            ks == keys@.map_values(|x: u128| x as int),
            r.len() == i,
            forall|k: int| 0 <= k < r.len() ==> #[trigger] r@[k] < i,
            forall|a: int, b: int|
                0 <= a < b < r.len() ==> ranked_before(ks, #[trigger] r@[a] as int, #[trigger] r@[b] as int),
        decreases keys.len() - i,
    {
        let key = keys[i];
        let mut p: usize = 0;
        while p < r.len() && keys[r[p]] >= key
            invariant
                p <= r.len(),
                r.len() == i,
                i < keys.len(),
                key == keys@[i as int],
                forall|k: int| 0 <= k < r.len() ==> #[trigger] r@[k] < i,
                forall|q: int| 0 <= q < p ==> keys@[#[trigger] r@[q] as int] >= key,
            decreases r.len() - p,
        {
            p = p + 1;
        }
        let ghost old_r = r@;
        r.insert(p, i);
        proof {
            assert(r@ == old_r.insert(p as int, i));
            assert forall|q: int| p <= q < old_r.len() implies keys@[#[trigger] old_r[q] as int] < key by {
                if q > p {
                    assert(ranked_before(ks, old_r[p as int] as int, old_r[q] as int));
                }
            }
            assert forall|a: int, b: int|
                0 <= a < b < r.len() implies ranked_before(ks, #[trigger] r@[a] as int, #[trigger] r@[b] as int) by {
                if b < p {
                } else if b == p {
                    assert(r@[a] == old_r[a]);
                } else if a < p {
                    assert(r@[b] == old_r[b - 1]);
                } else if a == p {
                    assert(r@[b] == old_r[b - 1]);
                } else {
                    assert(r@[a] == old_r[a - 1]);
                    assert(r@[b] == old_r[b - 1]);
                }
            }
        }
        i = i + 1;
    }
    proof {
        let order = r@.map_values(|k: usize| k as int);
        assert forall|x: int, y: int| 0 <= x < y < order.len() implies ranked_before(ks, #[trigger] order[x], #[trigger] order[y]) by {
            assert(ranked_before(ks, r@[x] as int, r@[y] as int));
        }
    }
    r
}

impl IssueContextualizer {
    /// Pairs each related issue with its score against `issue_to_solve` and
    /// orders them by descending score, equal scores in their given order.
    pub fn sort_issues_by_similarity<'a>(issue_to_solve: &Issue, related_issues: Vec<&'a Issue>) -> (r: Vec<(&'a Issue, u128)>)
        ensures
            exists|order: Seq<int>|
                ranks(score_keys(*issue_to_solve, related_issues@), order)
                && r@ == ranked_candidates(*issue_to_solve, related_issues@, order)
                && forall|k: int| 0 <= k < r.len() ==> (#[trigger] r@[k]).1 as int == score_keys(
                    *issue_to_solve,
                    related_issues@,
                )[order[k]],
            forall|k: int| 0 <= k < r.len() ==> (#[trigger] r@[k]).1 as int == similarity_score(*issue_to_solve, *r@[k].0),
            forall|i: int, j: int| 0 <= i < j < r.len() ==> (#[trigger] r@[i]).1 >= (#[trigger] r@[j]).1,
    {
        let ghost keys_spec = score_keys(*issue_to_solve, related_issues@);
        let mut keys: Vec<u128> = Vec::new();
        let mut k: usize = 0;
        while k < related_issues.len()
            invariant
                k <= related_issues.len(),
                keys.len() == k,
                keys_spec == score_keys(*issue_to_solve, related_issues@),
                forall|j: int| 0 <= j < k ==> keys@[j] as int == #[trigger] keys_spec[j],
            decreases related_issues.len() - k,
        {
            let score = Self::calculate_similarity_score(issue_to_solve, related_issues[k]);
            keys.push(score);
            k = k + 1;
        }
        assert(keys@.map_values(|x: u128| x as int) =~= keys_spec);
        let positions = rank_positions(&keys);
        let ghost order = positions@.map_values(|k: usize| k as int);
        let mut r: Vec<(&'a Issue, u128)> = Vec::new();
        let mut i: usize = 0;
        while i < positions.len()
            invariant
                i <= positions.len(),
                keys.len() == related_issues.len(),
                forall|j: int| 0 <= j < keys.len() ==> keys@[j] as int == #[trigger] keys_spec[j],
                keys_spec == score_keys(*issue_to_solve, related_issues@),
                order == positions@.map_values(|k: usize| k as int),
                ranks(keys_spec, order),
                r@ =~= ranked_candidates(*issue_to_solve, related_issues@, order).take(i as int),
                forall|j: int| 0 <= j < i ==> (#[trigger] r@[j]).1 as int == keys_spec[order[j]],
            decreases positions.len() - i,
        {
            let pos = positions[i];
            assert(order[i as int] == pos as int);
            assert(0 <= pos < related_issues.len());
            assert(keys_spec[pos as int] == similarity_score(*issue_to_solve, *related_issues@[pos as int]));
            assert(keys@[pos as int] as int == keys_spec[pos as int]);
            r.push((related_issues[pos], keys[pos]));
            assert(r@[i as int] == ranked_candidates(*issue_to_solve, related_issues@, order)[i as int]);
            i = i + 1;
        }
        assert(ranked_candidates(*issue_to_solve, related_issues@, order).take(i as int)
            =~= ranked_candidates(*issue_to_solve, related_issues@, order));
        assert forall|i: int, j: int| 0 <= i < j < r.len() implies (#[trigger] r@[i]).1 >= (#[trigger] r@[j]).1 by {
            assert(ranked_before(keys_spec, order[i], order[j]));
        }
        assert forall|k: int| 0 <= k < r.len() implies (#[trigger] r@[k]).1 as int == similarity_score(
            *issue_to_solve,
            *r@[k].0,
        ) by {
            assert(r@[k].0 == related_issues@[order[k]]);
        }
        r
    }

    /// Ranks the related issues as `sort_issues_by_similarity` does, drops
    /// those that score under `minimum_score` where one is given, and keeps
    /// at most `max_count` of the rest where one is given.
    pub fn rank_and_select<'a>(
        issue_to_solve: &Issue,
        related_issues: Vec<&'a Issue>,
        minimum_score: Option<u128>,
        max_count: Option<usize>,
    ) -> (r: Vec<(&'a Issue, u128)>)
        ensures
            exists|order: Seq<int>|
                ranks(score_keys(*issue_to_solve, related_issues@), order)
                && r@ == selected(
                    ranked_candidates(*issue_to_solve, related_issues@, order),
                    minimum_score,
                    max_count,
                ),
    {
        let ranked = Self::sort_issues_by_similarity(issue_to_solve, related_issues);
        let mut kept: Vec<(&'a Issue, u128)> = Vec::new();
        let ghost pred = |e: (&'a Issue, u128)| e.1 >= minimum_score->Some_0;
        let mut i: usize = 0;
        while i < ranked.len()
            invariant
                i <= ranked.len(),
                pred == (|e: (&'a Issue, u128)| e.1 >= minimum_score->Some_0),
                minimum_score is Some ==> kept@ == ranked@.take(i as int).filter(pred),
                minimum_score is None ==> kept@ == ranked@.take(i as int),
            decreases ranked.len() - i,
        {
            proof {
                assert(ranked@.take(i + 1) =~= ranked@.take(i as int).push(ranked@[i as int]));
                ranked@.take(i as int).lemma_filter_push(ranked@[i as int], pred);
            }
            let keep = match minimum_score {
                Some(m) => ranked[i].1 >= m,
                None => true,
            };
            if keep {
                kept.push(ranked[i]);
            }
            i = i + 1;
        }
        assert(ranked@.take(i as int) =~= ranked@);
        match max_count {
            Some(c) => {
                if kept.len() > c {
                    kept.truncate(c);
                }
            },
            None => {},
        }
        kept
    }

    /// Why `other` is related to `seed`: one phrase per signal that
    /// holds, joined by "; ", or a fallback phrase where none holds.
    pub fn get_similarity_reasons(seed: &Issue, other: &Issue) -> (r: String)
        ensures
            r@ == similarity_reasons(*seed, *other),
    {
        let ghost cand = *other;
        let mut phrases: Vec<String> = Vec::new();
        if has_inward_link(seed, &other.key) {
            phrases.push(String::from_str(DIRECT_LINK_REASON));
        }
        let ghost with_link = if links_to(*seed, cand.key@) { seq![DIRECT_LINK_REASON@] } else { Seq::<Seq<char>>::empty() };
        assert(strs(phrases@) =~= with_link);
        if has_same_epic(seed, other) {
            phrases.push(String::from_str(SAME_EPIC_REASON));
        }
        let ghost with_epic = if same_epic(*seed, cand) { with_link.push(SAME_EPIC_REASON@) } else { with_link };
        assert(strs(phrases@) =~= with_epic);
        let relation = parent_relation(seed, other);
        if relation == 1 {
            phrases.push(String::from_str(PARENT_REASON));
        } else if relation == 2 {
            phrases.push(String::from_str(SIBLING_REASON));
        }
        let ghost with_parent = if is_parent(*seed, cand) {
            with_epic.push(PARENT_REASON@)
        } else if is_sibling(*seed, cand) {
            with_epic.push(SIBLING_REASON@)
        } else {
            with_epic
        };
        assert(strs(phrases@) =~= with_parent);
        let components = shared_component_positions(seed, other);
        if components.len() > 0 {
            let names = component_names_at(seed, &components);
            proof {
                let f = |k: int| seed.fields.components@[k].name@;
                assert(components@.map_values(|k: usize| seed.fields.components@[k as int].name@)
                    =~= components@.map_values(|k: usize| k as int).map_values(f));
                assert(strs(names@) == shared_component_names(*seed, cand));
            }
            let mut phrase = String::from_str(COMPONENTS_REASON);
            let joined = join_strings(&names, LIST_SEPARATOR);
            phrase.append(joined.as_str());
            phrases.push(phrase);
        }
        let ghost with_components = if shared_components(*seed, cand) > 0 {
            with_parent.push(COMPONENTS_REASON@ + join(shared_component_names(*seed, cand), LIST_SEPARATOR@))
        } else {
            with_parent
        };
        assert(strs(phrases@) =~= with_components);
        let shared = shared_label_positions(seed, other);
        if shared.len() > 0 {
            let names = labels_at(seed, &shared);
            proof {
                let f = |k: int| labels(*seed)[k];
                assert(shared@.map_values(|k: usize| labels(*seed)[k as int])
                    =~= shared@.map_values(|k: usize| k as int).map_values(f));
                assert(strs(names@) == shared_label_names(*seed, cand));
            }
            let mut phrase = String::from_str(LABELS_REASON);
            let joined = join_strings(&names, LIST_SEPARATOR);
            phrase.append(joined.as_str());
            phrases.push(phrase);
        }
        assert(strs(phrases@) =~= reason_phrases(*seed, cand));
        if phrases.len() == 0 {
            String::from_str(FALLBACK_REASON)
        } else {
            join_strings(&phrases, REASON_SEPARATOR)
        }
    }

    /// The relevance of `other` to `seed`, in tenths of a point.
    pub fn calculate_similarity_score(seed: &Issue, other: &Issue) -> (r: u128)
        ensures
            r as int == similarity_score(*seed, *other),
    {
        let mut score: u128 = 0;
        if has_inward_link(seed, &other.key) {
            score = score + DIRECT_LINK_WEIGHT;
        }
        if has_same_epic(seed, other) {
            score = score + SAME_EPIC_WEIGHT;
        }
        let relation = parent_relation(seed, other);
        if relation == 1 {
            score = score + PARENT_WEIGHT;
        } else if relation == 2 {
            score = score + SIBLING_WEIGHT;
        }
        let components = shared_component_positions(seed, other).len();
        let labels = shared_label_positions(seed, other).len();
        assert(components as u128 <= u64::MAX as u128);
        assert(labels as u128 <= u64::MAX as u128);
        score = score + COMPONENT_WEIGHT * (components as u128) + LABEL_WEIGHT * (labels as u128);
        score
    }
}

/// How many similar issues the context describes.
pub const CONTEXT_ISSUE_LIMIT: usize = 5;

/// A score in tenths written with two decimals, as `{:.2}` writes the
/// score it stands for: 33 is "3.30".
pub open spec fn score_text(tenths: u128) -> Seq<char> {
    decimal((tenths / 10) as nat) + "."@ + seq![digits()[(tenths % 10) as int]] + "0"@
}

pub open spec fn text_or(o: Option<String>, default: Seq<char>) -> Seq<char> {
    match o {
        Some(s) => s@,
        None => default,
    }
}

pub open spec fn component_names(i: Issue) -> Seq<Seq<char>> {
    i.fields.components@.map_values(|c: IdNameWrapper| c.name@)
}

pub open spec fn pull_request_urls(i: Issue) -> Seq<Seq<char>> {
    i.pull_requests@.map_values(|p: PullRequest| p.url@)
}

/// "Heading: a, b", or "Heading:" alone for an empty list.
pub open spec fn listed(heading: Seq<char>, items: Seq<Seq<char>>) -> Seq<char> {
    if items.len() == 0 { heading } else { heading + " "@ + join(items, ", "@) }
}

/// The description of one similar issue in the context.
pub open spec fn similar_issue_text(seed: Issue, issue: Issue, score: u128) -> Seq<char> {
    "## "@ + issue.key@ + " (Similarity: "@ + score_text(score) + ")\nTitle: "@
        + text_or(issue.fields.summary, "No Title"@) + "\nResolution: "@
        + match issue.fields.resolution { Some(r) => r.name@, None => "Unresolved"@ }
        + "\nReason for similarity: "@ + similarity_reasons(seed, issue) + "\nStatus: "@
        + text_or(issue.fields.status.name, "Unknown"@) + "\n"@
        + listed("Pull Requests:"@, pull_request_urls(issue)) + "\n"@
        + listed("Components:"@, component_names(issue)) + "\n"@
        + listed("Labels:"@, labels(issue)) + "\nDescription:\n"@
        + text_or(issue.fields.description, "No Description"@) + "\n\n"@
}

/// The descriptions of the first five scored issues, separated by a blank line.
pub open spec fn similar_issues_text(seed: Issue, scored: Seq<(Issue, u128)>) -> Seq<char> {
    let shown = if scored.len() > CONTEXT_ISSUE_LIMIT { scored.take(CONTEXT_ISSUE_LIMIT as int) } else { scored };
    join(shown.map_values(|e: (Issue, u128)| similar_issue_text(seed, e.0, e.1)), "\n\n"@)
}

/// The context handed to a language model: the issue to solve, where it
/// stands, and the issues most similar to it.
pub open spec fn llm_context_text(issue: Issue, scored: Seq<(Issue, u128)>) -> Seq<char> {
    "# Primary Issue\nKey: "@ + issue.key@ + "\nTitle: "@ + text_or(issue.fields.summary, "No Title"@)
        + "\nDescription:\n"@ + text_or(issue.fields.description, "No Description"@)
        + "\n\n# Additional Context\n- Project: "@ + issue.fields.project.key@ + "\n- Component(s): "@
        + join(component_names(issue), ", "@) + "\n- Labels: "@ + join(labels(issue), ", "@)
        + "\n\n# Similar Issues (by relevance score)\n\n"@ + similar_issues_text(issue, scored) + "\n"@
}

fn push_score(out: &mut String, tenths: u128)
    ensures
        final(out)@ == old(out)@ + score_text(tenths),
{
    push_decimal(out, tenths / 10);
    out.append(".");
    let d = tenths % 10;
    let ghost before = out@;
    push_char(out, if d == 0 { '0' } else if d == 1 { '1' } else if d == 2 { '2' } else if d == 3 { '3' }
        else if d == 4 { '4' } else if d == 5 { '5' } else if d == 6 { '6' } else if d == 7 { '7' }
        else if d == 8 { '8' } else { '9' });
    assert(out@ =~= before + seq![digits()[d as int]]);
    out.append("0");
}

fn push_text_or(out: &mut String, o: &Option<String>, default: &str)
    ensures
        final(out)@ == old(out)@ + text_or(*o, default@),
{
    match o {
        Some(s) => out.append(s.as_str()),
        None => out.append(default),
    }
}

fn push_listed(out: &mut String, heading: &str, items: &Vec<String>)
    ensures
        final(out)@ == old(out)@ + listed(heading@, strs(items@)),
{
    out.append(heading);
    if items.len() > 0 {
        out.append(" ");
        let joined = join_strings(items, ", ");
        out.append(joined.as_str());
    }
}

fn component_name_list(i: &Issue) -> (r: Vec<String>)
    ensures
        strs(r@) == component_names(*i),
{
    let mut r: Vec<String> = Vec::new();
    let mut k: usize = 0;
    while k < i.fields.components.len()
        invariant
            k <= i.fields.components.len(),
            r.len() == k,
            strs(r@) =~= component_names(*i).take(k as int),
        decreases i.fields.components.len() - k,
    {
        let name = i.fields.components[k].name.clone();
        r.push(name);
        assert(strs(r@)[k as int] == component_names(*i)[k as int]);
        k = k + 1;
    }
    assert(component_names(*i).take(k as int) =~= component_names(*i));
    r
}

fn pull_request_url_list(i: &Issue) -> (r: Vec<String>)
    ensures
        strs(r@) == pull_request_urls(*i),
{
    let mut r: Vec<String> = Vec::new();
    let mut k: usize = 0;
    while k < i.pull_requests.len()
        invariant
            k <= i.pull_requests.len(),
            r.len() == k,
            strs(r@) =~= pull_request_urls(*i).take(k as int),
        decreases i.pull_requests.len() - k,
    {
        let url = i.pull_requests[k].url.clone();
        r.push(url);
        assert(strs(r@)[k as int] == pull_request_urls(*i)[k as int]);
        k = k + 1;
    }
    assert(pull_request_urls(*i).take(k as int) =~= pull_request_urls(*i));
    r
}

impl IssueContextualizer {
    fn similar_issue_block(seed: &Issue, issue: &Issue, score: u128) -> (r: String)
        ensures
            r@ == similar_issue_text(*seed, *issue, score),
    {
        let mut r = String::from_str("## ");
        r.append(issue.key.as_str());
        r.append(" (Similarity: ");
        push_score(&mut r, score);
        r.append(")\nTitle: ");
        push_text_or(&mut r, &issue.fields.summary, "No Title");
        r.append("\nResolution: ");
        match &issue.fields.resolution {
            Some(res) => r.append(res.name.as_str()),
            None => r.append("Unresolved"),
        }
        r.append("\nReason for similarity: ");
        let reasons = Self::get_similarity_reasons(seed, issue);
        r.append(reasons.as_str());
        r.append("\nStatus: ");
        push_text_or(&mut r, &issue.fields.status.name, "Unknown");
        r.append("\n");
        push_listed(&mut r, "Pull Requests:", &pull_request_url_list(issue));
        r.append("\n");
        push_listed(&mut r, "Components:", &component_name_list(issue));
        r.append("\n");
        push_listed(&mut r, "Labels:", &issue.fields.labels);
        r.append("\nDescription:\n");
        push_text_or(&mut r, &issue.fields.description, "No Description");
        r.append("\n\n");
        r
    }

    /// The descriptions of the first five scored issues, separated by a
    /// blank line.
    pub fn format_similar_issues(seed: &Issue, scored_issues: &Vec<(Issue, u128)>) -> (r: String)
        ensures
            r@ == similar_issues_text(*seed, scored_issues@),
    {
        let ghost shown = if scored_issues@.len() > CONTEXT_ISSUE_LIMIT {
            scored_issues@.take(CONTEXT_ISSUE_LIMIT as int)
        } else {
            scored_issues@
        };
        let ghost texts = shown.map_values(|e: (Issue, u128)| similar_issue_text(*seed, e.0, e.1));
        let n = if scored_issues.len() > CONTEXT_ISSUE_LIMIT { CONTEXT_ISSUE_LIMIT } else { scored_issues.len() };
        let mut blocks: Vec<String> = Vec::new();
        let mut k: usize = 0;
        while k < n
            invariant
                k <= n,
                n == shown.len(),
                n <= scored_issues.len(),
                forall|j: int| 0 <= j < n ==> shown[j] == scored_issues@[j],
                texts == shown.map_values(|e: (Issue, u128)| similar_issue_text(*seed, e.0, e.1)),
                blocks.len() == k,
                strs(blocks@) =~= texts.take(k as int),
            decreases n - k,
        {
            let block = Self::similar_issue_block(seed, &scored_issues[k].0, scored_issues[k].1);
            blocks.push(block);
            assert(strs(blocks@)[k as int] == texts[k as int]);
            k = k + 1;
        }
        assert(texts.take(k as int) =~= texts);
        join_strings(&blocks, "\n\n")
    }

    /// The context handed to a language model: the issue to solve, its
    /// project, components and labels, and the issues most similar to it.
    pub fn get_llm_context(issue_to_solve: &Issue, related_issues_by_similarity: Vec<(Issue, u128)>) -> (r: String)
        ensures
            r@ == llm_context_text(*issue_to_solve, related_issues_by_similarity@),
    {
        let mut r = String::from_str("# Primary Issue\nKey: ");
        r.append(issue_to_solve.key.as_str());
        r.append("\nTitle: ");
        push_text_or(&mut r, &issue_to_solve.fields.summary, "No Title");
        r.append("\nDescription:\n");
        push_text_or(&mut r, &issue_to_solve.fields.description, "No Description");
        r.append("\n\n# Additional Context\n- Project: ");
        r.append(issue_to_solve.fields.project.key.as_str());
        r.append("\n- Component(s): ");
        let components = join_strings(&component_name_list(issue_to_solve), ", ");
        r.append(components.as_str());
        r.append("\n- Labels: ");
        let labels = join_strings(&issue_to_solve.fields.labels, ", ");
        r.append(labels.as_str());
        r.append("\n\n# Similar Issues (by relevance score)\n\n");
        let similar = Self::format_similar_issues(issue_to_solve, &related_issues_by_similarity);
        r.append(similar.as_str());
        r.append("\n");
        r
    }
}

} // verus!
