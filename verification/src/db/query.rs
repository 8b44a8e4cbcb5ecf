//! The read-only queries of the tracker: listings, the frontier, blocked
//! issues, the agent grab queue, and one issue in detail.

use vstd::prelude::*;

use super::store::{
    blocked_pick, blocked_view, comment_pick, comments_of, contains_pair, detail_view, frontier_pick,
    frontier_view, has_child, has_issue, has_label, has_parent, is_blocked, is_unresolved,
    issue_of, label_names, label_pick, lemma_issue_at, list_pick, list_view, ready_view,
    source_pick, summary_is_open, summary_of, target_pick, unresolved, unresolved_pick, Store,
    StoreV,
};
use super::{
    strings_view, BlockedSummary, BlockedV, Comment, CommentV, Dependency, DependencyV,
    IssueDetail, IssueSummary, SummaryV,
};
use crate::text::str_eq;

verus! {

/// The characters of an optional string.
pub open spec fn opt_chars(o: Option<&str>) -> Option<Seq<char>> {
    match o {
        Some(s) => Some(s@),
        None => None,
    }
}

/// The views of a sequence of summaries.
pub open spec fn summaries_view(v: Seq<IssueSummary>) -> Seq<SummaryV> {
    v.map_values(|x: IssueSummary| x@)
}

/// The views of a sequence of blocked issues.
pub open spec fn blocked_list_view(v: Seq<BlockedSummary>) -> Seq<BlockedV> {
    v.map_values(|x: BlockedSummary| x@)
}

/// The names of the labels attached to an issue, in name order.
pub fn labels_for(store: &Store, id: i64) -> (r: Vec<String>)
    requires
        store.wf(),
    ensures
        strings_view(r@) == label_names(store@, id),
{
    let ghost f = label_pick(store@, id);
    let mut out: Vec<String> = Vec::new();
    let mut i: usize = 0;
    while i < store.labels.len()
        invariant
            i <= store@.labels.len(),
            store.labels@.len() == store@.labels.len(),
            f == label_pick(store@, id),
            strings_view(out@) == store@.labels.take(i as int).filter_map(f),
        decreases store.labels.len() - i,
    {
        proof {
            store@.labels.lemma_filter_map_take_succ(f, i as int);
        }
        if contains_pair(&store.links, id, store.labels[i].id) {
            let ghost before = out@;
            out.push(store.labels[i].name.clone());
            assert(strings_view(out@) =~= strings_view(before) + seq![store@.labels[i as int].name]);
        }
        i = i + 1;
    }
    assert(store@.labels.take(store@.labels.len() as int) =~= store@.labels);
    out
}

/// Whether a label with this name is attached to the issue.
pub fn has_label_named(store: &Store, id: i64, name: &str) -> (r: bool)
    requires
        store.wf(),
    ensures
        r == has_label(store@, id, name@),
{
    let names = labels_for(store, id);
    let mut i: usize = 0;
    while i < names.len()
        invariant
            i <= names@.len(),
            strings_view(names@) == label_names(store@, id),
            forall|j: int| 0 <= j < i ==> names@[j]@ != name@,
        decreases names.len() - i,
    {
        if str_eq(&names[i], name) {
            assert(strings_view(names@)[i as int] == name@);
            return true;
        }
        i = i + 1;
    }
    assert(!strings_view(names@).contains(name@)) by {
        if strings_view(names@).contains(name@) {
            let k = choose|k: int| 0 <= k < strings_view(names@).len() && strings_view(names@)[k] == name@;
            assert(names@[k]@ == name@);
        }
    }
    false
}

/// The summary of the issue at position `i`.
fn summary_at(store: &Store, i: usize) -> (r: IssueSummary)
    requires
        store.wf(),
        i < store@.issues.len(),
    ensures
        r@ == summary_of(store@, store@.issues[i as int]),
{
    let x = &store.issues[i];
    IssueSummary {
        id: x.id,
        title: x.title.clone(),
        status: x.status.clone(),
        labels: labels_for(store, x.id),
    }
}

/// Whether the issue passes the label filter, when one is given.
fn label_ok(store: &Store, label: Option<&str>, id: i64) -> (r: bool)
    requires
        store.wf(),
    ensures
        r == super::store::label_pass(store@, opt_chars(label), id),
{
    match label {
        Some(l) => has_label_named(store, id, l),
        None => true,
    }
}

/// Lists the issues with the given status, label and parent (each filter
/// only when given), in id order, each with its labels in name order.
pub fn list_issues(
    store: &Store,
    status: Option<&str>,
    label: Option<&str>,
    parent: Option<i64>,
) -> (r: Vec<IssueSummary>)
    requires
        store.wf(),
    ensures
        summaries_view(r@) == list_view(store@, opt_chars(status), opt_chars(label), parent),
{
    let ghost f = list_pick(store@, opt_chars(status), opt_chars(label), parent);
    let mut out: Vec<IssueSummary> = Vec::new();
    let mut i: usize = 0;
    while i < store.issues.len()
        invariant
            store.wf(),
            i <= store@.issues.len(),
            store.issues@.len() == store@.issues.len(),
            f == list_pick(store@, opt_chars(status), opt_chars(label), parent),
            summaries_view(out@) == store@.issues.take(i as int).filter_map(f),
        decreases store.issues.len() - i,
    {
        proof {
            store@.issues.lemma_filter_map_take_succ(f, i as int);
        }
        let x = &store.issues[i];
        let status_ok = match status {
            Some(st) => str_eq(&x.status, st),
            None => true,
        };
        let parent_ok = match parent {
            Some(p) => contains_pair(&store.members, x.id, p),
            None => true,
        };
        if status_ok && label_ok(store, label, x.id) && parent_ok {
            let ghost before = out@;
            let s = summary_at(store, i);
            out.push(s);
            assert(summaries_view(out@) =~= summaries_view(before) + seq![
                summary_of(store@, store@.issues[i as int]),
            ]);
        }
        i = i + 1;
    }
    assert(store@.issues.take(store@.issues.len() as int) =~= store@.issues);
    out
}

/// Whether some unresolved dependency blocks the issue.
pub fn blocked_by_open(store: &Store, id: i64) -> (r: bool)
    requires
        store.wf(),
    ensures
        r == is_blocked(store@, id),
{
    let mut j: usize = 0;
    while j < store.issues.len()
        invariant
            j <= store@.issues.len(),
            store.issues@.len() == store@.issues.len(),
            forall|k: int| 0 <= k < j ==> !is_unresolved(store@, id, #[trigger] store@.issues[k]),
        decreases store.issues.len() - j,
    {
        let d = &store.issues[j];
        if contains_pair(&store.deps, id, d.id) && !str_eq(&d.status, "closed") {
            assert(is_unresolved(store@, id, store@.issues[j as int]));
            return true;
        }
        j = j + 1;
    }
    false
}

/// The unresolved dependencies of an issue: the issues it depends on that are
/// not closed, in id order.
pub fn unresolved_dependencies(store: &Store, id: i64) -> (r: Vec<Dependency>)
    requires
        store.wf(),
    ensures
        r@.map_values(|d: Dependency| d@) == unresolved(store@, id),
{
    let ghost f = unresolved_pick(store@, id);
    let mut out: Vec<Dependency> = Vec::new();
    let mut i: usize = 0;
    while i < store.issues.len()
        invariant
            i <= store@.issues.len(),
            store.issues@.len() == store@.issues.len(),
            f == unresolved_pick(store@, id),
            out@.map_values(|d: Dependency| d@) == store@.issues.take(i as int).filter_map(f),
        decreases store.issues.len() - i,
    {
        proof {
            store@.issues.lemma_filter_map_take_succ(f, i as int);
        }
        let d = &store.issues[i];
        if contains_pair(&store.deps, id, d.id) && !str_eq(&d.status, "closed") {
            let ghost before = out@;
            out.push(Dependency { id: d.id, title: d.title.clone(), status: d.status.clone() });
            assert(out@.map_values(|d: Dependency| d@) =~= before.map_values(|d: Dependency| d@)
                + seq![DependencyV { id: d.id, title: d.title@, status: d.status@ }]);
        }
        i = i + 1;
    }
    assert(store@.issues.take(store@.issues.len() as int) =~= store@.issues);
    out
}

/// Whether some issue is attached to this one.
pub fn is_parent(store: &Store, id: i64) -> (r: bool)
    ensures
        r == has_child(store@, id),
{
    let mut k: usize = 0;
    while k < store.members.len()
        invariant
            k <= store@.members.len(),
            forall|j: int| 0 <= j < k ==> (#[trigger] store@.members[j]).1 != id,
        decreases store.members.len() - k,
    {
        if store.members[k].1 == id {
            assert(store@.members[k as int].1 == id);
            return true;
        }
        k = k + 1;
    }
    false
}

/// Whether this issue is attached to some parent.
pub fn is_child(store: &Store, id: i64) -> (r: bool)
    ensures
        r == has_parent(store@, id),
{
    let mut k: usize = 0;
    while k < store.members.len()
        invariant
            k <= store@.members.len(),
            forall|j: int| 0 <= j < k ==> (#[trigger] store@.members[j]).0 != id,
        decreases store.members.len() - k,
    {
        if store.members[k].0 == id {
            assert(store@.members[k as int].0 == id);
            return true;
        }
        k = k + 1;
    }
    false
}

/// The frontier: open issues with no unresolved dependency that are not
/// parents, carrying the label when one is given, attached to the map when
/// one is given and else attached to no parent; in id order.
pub fn frontier(store: &Store, label: Option<&str>, map: Option<i64>) -> (r: Vec<IssueSummary>)
    requires
        store.wf(),
    ensures
        summaries_view(r@) == frontier_view(store@, opt_chars(label), map),
{
    let ghost f = frontier_pick(store@, opt_chars(label), map);
    let mut out: Vec<IssueSummary> = Vec::new();
    let mut i: usize = 0;
    while i < store.issues.len()
        invariant
            store.wf(),
            i <= store@.issues.len(),
            store.issues@.len() == store@.issues.len(),
            f == frontier_pick(store@, opt_chars(label), map),
            summaries_view(out@) == store@.issues.take(i as int).filter_map(f),
        decreases store.issues.len() - i,
    {
        proof {
            store@.issues.lemma_filter_map_take_succ(f, i as int);
        }
        let x = &store.issues[i];
        let map_ok = match map {
            Some(m) => contains_pair(&store.members, x.id, m),
            None => !is_child(store, x.id),
        };
        if str_eq(&x.status, "open") && !blocked_by_open(store, x.id) && label_ok(store, label, x.id)
            && !is_parent(store, x.id) && map_ok {
            let ghost before = out@;
            let s = summary_at(store, i);
            out.push(s);
            assert(summaries_view(out@) =~= summaries_view(before) + seq![
                summary_of(store@, store@.issues[i as int]),
            ]);
        }
        i = i + 1;
    }
    assert(store@.issues.take(store@.issues.len() as int) =~= store@.issues);
    out
}

/// The open issues that an unresolved dependency blocks, carrying the label
/// when one is given, in id order, each with its unresolved dependencies.
pub fn blocked(store: &Store, label: Option<&str>) -> (r: Vec<BlockedSummary>)
    requires
        store.wf(),
    ensures
        blocked_list_view(r@) == blocked_view(store@, opt_chars(label)),
{
    let ghost f = blocked_pick(store@, opt_chars(label));
    let mut out: Vec<BlockedSummary> = Vec::new();
    let mut i: usize = 0;
    while i < store.issues.len()
        invariant
            store.wf(),
            i <= store@.issues.len(),
            store.issues@.len() == store@.issues.len(),
            f == blocked_pick(store@, opt_chars(label)),
            blocked_list_view(out@) == store@.issues.take(i as int).filter_map(f),
        decreases store.issues.len() - i,
    {
        proof {
            store@.issues.lemma_filter_map_take_succ(f, i as int);
        }
        let x = &store.issues[i];
        if str_eq(&x.status, "open") && blocked_by_open(store, x.id) && label_ok(store, label, x.id) {
            let ghost before = out@;
            let b = BlockedSummary {
                id: x.id,
                title: x.title.clone(),
                blocked_by: unresolved_dependencies(store, x.id),
            };
            out.push(b);
            assert(blocked_list_view(out@) =~= blocked_list_view(before) + seq![
                BlockedV { id: x.id, title: x.title@, blocked_by: unresolved(store@, x.id) },
            ]);
        }
        i = i + 1;
    }
    assert(store@.issues.take(store@.issues.len() as int) =~= store@.issues);
    out
}

/// The agent grab queue: the open issues labelled `ready-for-agent`, in id order.
pub fn ready_for_agent(store: &Store) -> (r: Vec<IssueSummary>)
    requires
        store.wf(),
    ensures
        summaries_view(r@) == ready_view(store@),
{
    let listed = list_issues(store, None, Some("ready-for-agent"), None);
    let ghost all = summaries_view(listed@);
    let ghost p = summary_is_open();
    let mut out: Vec<IssueSummary> = Vec::new();
    let mut listed = listed;
    let mut rest: Vec<IssueSummary> = Vec::new();
    let mut i: usize = 0;
    let n = listed.len();
    proof {
        reveal_strlit("ready-for-agent");
    }
    while i < n
        invariant
            n == all.len(),
            i <= n,
            listed@.len() == n,
            summaries_view(listed@) == all,
            p == summary_is_open(),
            summaries_view(out@) == all.take(i as int).filter(p),
        decreases n - i,
    {
        proof {
            assert(all.take(i + 1) =~= all.take(i as int).push(all[i as int]));
            all.take(i as int).lemma_filter_push(all[i as int], p);
        }
        if str_eq(&listed[i].status, "open") {
            let ghost before = out@;
            let s = IssueSummary {
                id: listed[i].id,
                title: listed[i].title.clone(),
                status: listed[i].status.clone(),
                labels: clone_strings(&listed[i].labels),
            };
            out.push(s);
            assert(summaries_view(out@) =~= summaries_view(before).push(all[i as int]));
        }
        i = i + 1;
    }
    assert(all.take(n as int) =~= all);
    proof {
        reveal_strlit("ready-for-agent");
    }
    out
}

/// A copy of a list of strings.
pub fn clone_strings(v: &Vec<String>) -> (r: Vec<String>)
    ensures
        strings_view(r@) == strings_view(v@),
{
    let mut out: Vec<String> = Vec::new();
    let mut i: usize = 0;
    while i < v.len()
        invariant
            i <= v@.len(),
            out@ == v@.take(i as int),
        decreases v.len() - i,
    {
        out.push(v[i].clone());
        assert(out@ =~= v@.take(i + 1));
        i = i + 1;
    }
    assert(v@.take(v@.len() as int) =~= v@);
    out
}

/// The second members of the pairs whose first member is `id`, in table order.
pub fn pair_targets(v: &Vec<(i64, i64)>, id: i64) -> (r: Vec<i64>)
    ensures
        r@ == v@.filter_map(target_pick(id)),
{
    let mut out: Vec<i64> = Vec::new();
    let mut i: usize = 0;
    while i < v.len()
        invariant
            i <= v@.len(),
            out@ == v@.take(i as int).filter_map(target_pick(id)),
        decreases v.len() - i,
    {
        proof {
            v@.lemma_filter_map_take_succ(target_pick(id), i as int);
        }
        if v[i].0 == id {
            out.push(v[i].1);
        }
        i = i + 1;
    }
    assert(v@.take(v@.len() as int) =~= v@);
    out
}

/// The first members of the pairs whose second member is `id`, in table order.
pub fn pair_sources(v: &Vec<(i64, i64)>, id: i64) -> (r: Vec<i64>)
    ensures
        r@ == v@.filter_map(source_pick(id)),
{
    let mut out: Vec<i64> = Vec::new();
    let mut i: usize = 0;
    while i < v.len()
        invariant
            i <= v@.len(),
            out@ == v@.take(i as int).filter_map(source_pick(id)),
        decreases v.len() - i,
    {
        proof {
            v@.lemma_filter_map_take_succ(source_pick(id), i as int);
        }
        if v[i].1 == id {
            out.push(v[i].0);
        }
        i = i + 1;
    }
    assert(v@.take(v@.len() as int) =~= v@);
    out
}

/// The comments of an issue, in id order.
pub fn comments_for(store: &Store, id: i64) -> (r: Vec<Comment>)
    ensures
        r@.map_values(|c: Comment| c@) == comments_of(store@, id),
{
    let mut out: Vec<Comment> = Vec::new();
    let mut i: usize = 0;
    while i < store.comments.len()
        invariant
            i <= store@.comments.len(),
            store.comments@.len() == store@.comments.len(),
            out@.map_values(|c: Comment| c@) == store@.comments.take(i as int).filter_map(
                comment_pick(id),
            ),
        decreases store.comments.len() - i,
    {
        proof {
            store@.comments.lemma_filter_map_take_succ(comment_pick(id), i as int);
        }
        let c = &store.comments[i];
        if c.issue_id == id {
            let ghost before = out@;
            out.push(Comment { id: c.id, body: c.body.clone(), created_at: c.created_at.clone() });
            assert(out@.map_values(|c: Comment| c@) =~= before.map_values(|c: Comment| c@) + seq![
                CommentV { id: c.id, body: c.body@, created_at: c.created_at@ },
            ]);
        }
        i = i + 1;
    }
    assert(store@.comments.take(store@.comments.len() as int) =~= store@.comments);
    out
}

/// One issue in detail, or `None` when no issue has this id.
pub fn get_issue(store: &Store, id: i64) -> (r: Option<IssueDetail>)
    requires
        store.wf(),
    ensures
        match r {
            Some(d) => detail_view(store@, id) == Some(d@),
            None => detail_view(store@, id) is None,
        },
{
    match store.find_issue(id) {
        None => None,
        Some(i) => {
            let d = IssueDetail {
                issue: store.issues[i].duplicate(),
                labels: labels_for(store, id),
                comments: comments_for(store, id),
                blocked_by: pair_targets(&store.deps, id),
                blocks: pair_sources(&store.deps, id),
                parents: pair_targets(&store.members, id),
                children: pair_sources(&store.members, id),
            };
            Some(d)
        },
    }
}

} // verus!
