//! What holds of the tracker across its queries and edits: how edges gate
//! work, what the frontier and the grab queue hold, and what an edit shows
//! on the next read.

use vstd::prelude::*;

use super::edit::{
    anchors_change, close_changes, closed_issue, label_changes, lemma_apply_one, lemma_apply_two,
    lemma_map_issue_at,
};
use super::store::{
    apply_change, blocked_pick, blocked_view, comment_pick, comments_of, detail_view, frontier_pick,
    frontier_view, has_child, has_issue, has_label, is_blocked, is_unresolved, issue_of, list_pick,
    list_view, open_status, closed_status, ready_label, ready_view, source_pick, summary_is_open,
    summary_of, target_pick, unresolved, unresolved_pick, without, other_than, StoreV, apply_changes,
    label_exists, label_id_for, label_index, label_names, label_pick, label_pos, map_issue,
    has_parent, label_pass,
};
use super::LabelV;
use crate::text::lemma_chars_lt_irreflexive;
use super::{BlockedV, ChangeV, CommentRowV, CommentV, DependencyV, DetailV, IssueV, SummaryV};

verus! {

/// An element that `f` keeps is in what `filter_map` gives.
pub proof fn lemma_filter_map_keeps<A, B>(s: Seq<A>, f: spec_fn(A) -> Option<B>, i: int)
    requires
        0 <= i < s.len(),
        f(s[i]) is Some,
    ensures
        s.filter_map(f).contains(f(s[i])->0),
    decreases s.len(),
{
    let r = s.filter_map(f);
    let rest = s.drop_last();
    if i == s.len() - 1 {
        assert(r == rest.filter_map(f) + seq![f(s[i])->0]);
        assert(r[r.len() - 1] == f(s[i])->0);
    } else {
        lemma_filter_map_keeps(rest, f, i);
        assert(rest[i] == s[i]);
        let k = choose|k: int| 0 <= k < rest.filter_map(f).len() && rest.filter_map(f)[k] == f(s[i])->0;
        match f(s.last()) {
            Some(b) => {
                assert(r == rest.filter_map(f) + seq![b]);
                assert(r[k] == f(s[i])->0);
            },
            None => {},
        }
    }
}

/// A membership edge never gates its child: whatever the memberships are,
/// the same issues are blocked, by the same dependencies.
pub proof fn law_membership_never_blocks(s: StoreV, members: Seq<(i64, i64)>, label: Option<Seq<char>>)
    ensures
        forall|id: i64| is_blocked(StoreV { members, ..s }, id) == is_blocked(s, id),
        forall|id: i64| unresolved(StoreV { members, ..s }, id) == unresolved(s, id),
        blocked_view(StoreV { members, ..s }, label) == blocked_view(s, label),
{
    let t = StoreV { members, ..s };
    assert forall|id: i64| unresolved(t, id) == unresolved(s, id) by {
        assert(unresolved_pick(t, id) =~= unresolved_pick(s, id));
    }
    assert(blocked_pick(t, label) =~= blocked_pick(s, label));
}

/// The frontier holds open issues whose dependencies are all closed and
/// that are not the parent of any issue.
pub proof fn law_frontier_is_takeable(s: StoreV, label: Option<Seq<char>>, map: Option<i64>, y: SummaryV)
    requires
        frontier_view(s, label, map).contains(y),
    ensures
        exists|i: int|
            0 <= i < s.issues.len() && #[trigger] summary_of(s, s.issues[i]) == y && {
                let x = s.issues[i];
                &&& x.status == open_status()
                &&& !has_child(s, x.id)
                &&& forall|j: int|
                    0 <= j < s.issues.len() && s.deps.contains((x.id, s.issues[j].id))
                        ==> #[trigger] s.issues[j].status == closed_status()
            },
{
    s.issues.lemma_filter_map_contains(frontier_pick(s, label, map), y);
    let x = choose|x| #[trigger] s.issues.contains(x) && frontier_pick(s, label, map)(x) == Some(y);
    let i = choose|i: int| 0 <= i < s.issues.len() && s.issues[i] == x;
    assert forall|j: int|
        0 <= j < s.issues.len() && s.deps.contains((x.id, s.issues[j].id)) implies #[trigger] s.issues[j].status
        == closed_status() by {
        if s.issues[j].status != closed_status() {
            assert(is_unresolved(s, x.id, s.issues[j]));
        }
    }
}

/// No issue is both on the frontier and among the blocked issues.
pub proof fn law_frontier_blocked_disjoint(
    s: StoreV,
    label: Option<Seq<char>>,
    map: Option<i64>,
    blocked_label: Option<Seq<char>>,
    y: SummaryV,
    z: BlockedV,
)
    requires
        frontier_view(s, label, map).contains(y),
        blocked_view(s, blocked_label).contains(z),
    ensures
        y.id != z.id,
{
    s.issues.lemma_filter_map_contains(frontier_pick(s, label, map), y);
    s.issues.lemma_filter_map_contains(blocked_pick(s, blocked_label), z);
}

/// The agent grab queue holds exactly the open issues labelled
/// `ready-for-agent`.
pub proof fn law_ready_queue(s: StoreV, i: int, y: SummaryV)
    ensures
        ready_view(s).contains(y) ==> exists|k: int|
            0 <= k < s.issues.len() && #[trigger] summary_of(s, s.issues[k]) == y
                && s.issues[k].status == open_status() && has_label(s, s.issues[k].id, ready_label()),
        0 <= i < s.issues.len() && s.issues[i].status == open_status() && has_label(
            s,
            s.issues[i].id,
            ready_label(),
        ) ==> ready_view(s).contains(summary_of(s, s.issues[i])),
{
    let f = list_pick(s, None, Some(ready_label()), None);
    let l = list_view(s, None, Some(ready_label()), None);
    if ready_view(s).contains(y) {
        l.lemma_filter_contains_rev(summary_is_open(), y);
        s.issues.lemma_filter_map_contains(f, y);
        let x = choose|x| #[trigger] s.issues.contains(x) && f(x) == Some(y);
        let k = choose|k: int| 0 <= k < s.issues.len() && s.issues[k] == x;
        let n = choose|n: int| 0 <= n < l.filter(summary_is_open()).len() && l.filter(summary_is_open())[n] == y;
        l.lemma_filter_pred(summary_is_open(), n);
        assert(summary_of(s, s.issues[k]) == y);
    }
    if 0 <= i < s.issues.len() && s.issues[i].status == open_status() && has_label(
        s,
        s.issues[i].id,
        ready_label(),
    ) {
        lemma_filter_map_keeps(s.issues, f, i);
        let y2 = summary_of(s, s.issues[i]);
        let n = choose|n: int| 0 <= n < l.len() && l[n] == y2;
        l.lemma_filter_contains(summary_is_open(), n);
    }
}

/// Closing an issue unblocks what waited on it: afterwards an issue is
/// blocked exactly when a dependency other than the closed one is still
/// unresolved.
pub proof fn law_close_unblocks(s: StoreV, closed: i64, now: Seq<char>, id: i64)
    requires
        s.wf(),
        has_issue(s, closed),
    ensures
        is_blocked(
            apply_change(s, ChangeV::SetStatus { id: closed, status: closed_status(), updated_at: now }),
            id,
        ) == exists|j: int|
            0 <= j < s.issues.len() && #[trigger] is_unresolved(s, id, s.issues[j]) && s.issues[j].id
                != closed,
{
    let c = ChangeV::SetStatus { id: closed, status: closed_status(), updated_at: now };
    let t = apply_change(s, c);
    let k = choose|k: int| 0 <= k < s.issues.len() && s.issues[k].id == closed;
    let f = |x: IssueV| IssueV { status: closed_status(), updated_at: now, ..x };
    lemma_map_issue_at(s, k, f);
    assert(t.issues == s.issues.update(k, f(s.issues[k])));
    if is_blocked(t, id) {
        let j = choose|j: int| 0 <= j < t.issues.len() && is_unresolved(t, id, #[trigger] t.issues[j]);
        assert(j != k);
        assert(t.issues[j] == s.issues[j]);
        assert(is_unresolved(s, id, s.issues[j]));
    }
    if exists|j: int|
        0 <= j < s.issues.len() && #[trigger] is_unresolved(s, id, s.issues[j]) && s.issues[j].id != closed {
        let j = choose|j: int|
            0 <= j < s.issues.len() && #[trigger] is_unresolved(s, id, s.issues[j]) && s.issues[j].id
                != closed;
        assert(j != k);
        assert(t.issues[j] == s.issues[j]);
        assert(is_unresolved(t, id, t.issues[j]));
    }
}

/// Setting an issue's status shows on the next read: the issue has the new
/// status and time and is otherwise as it was.
pub proof fn law_status_shows(s: StoreV, id: i64, status: Seq<char>, now: Seq<char>)
    requires
        s.wf(),
        has_issue(s, id),
    ensures
        ({
            let t = apply_change(s, ChangeV::SetStatus { id, status, updated_at: now });
            &&& has_issue(t, id)
            &&& issue_of(t, id) == (IssueV { status, updated_at: now, ..issue_of(s, id) })
        }),
{
    let t = apply_change(s, ChangeV::SetStatus { id, status, updated_at: now });
    let k = choose|k: int| 0 <= k < s.issues.len() && s.issues[k].id == id;
    let f = |x: IssueV| IssueV { status, updated_at: now, ..x };
    lemma_map_issue_at(s, k, f);
    super::store::lemma_issue_at(s, k);
    assert(t.issues == s.issues.update(k, f(s.issues[k])));
    assert(t.issues[k].id == id);
    assert(has_issue(t, id));
    let j = choose|j: int| 0 <= j < t.issues.len() && t.issues[j].id == id;
    if j != k {
        assert(t.issues[j] == s.issues[j]);
        assert(s.issues[j].id == s.issues[k].id);
        if j < k {
            assert(s.issues[j].id < s.issues[k].id);
        } else {
            assert(s.issues[k].id < s.issues[j].id);
        }
    }
}

/// Setting an issue's commit anchors shows on the next read: the issue has
/// the new anchors and time and is otherwise as it was.
pub proof fn law_anchors_show(
    s: StoreV,
    id: i64,
    opened_at: Option<Seq<char>>,
    resolved_by: Option<Seq<char>>,
    now: Seq<char>,
)
    requires
        s.wf(),
        has_issue(s, id),
    ensures
        ({
            let t = apply_change(s, ChangeV::SetAnchors { id, opened_at, resolved_by, updated_at: now });
            &&& has_issue(t, id)
            &&& issue_of(t, id) == (IssueV { opened_at, resolved_by, updated_at: now, ..issue_of(s, id) })
        }),
{
    let t = apply_change(s, ChangeV::SetAnchors { id, opened_at, resolved_by, updated_at: now });
    let k = choose|k: int| 0 <= k < s.issues.len() && s.issues[k].id == id;
    let f = |x: IssueV| IssueV { opened_at, resolved_by, updated_at: now, ..x };
    lemma_map_issue_at(s, k, f);
    super::store::lemma_issue_at(s, k);
    assert(t.issues == s.issues.update(k, f(s.issues[k])));
    assert(t.issues[k].id == id);
    assert(has_issue(t, id));
    let j = choose|j: int| 0 <= j < t.issues.len() && t.issues[j].id == id;
    if j != k {
        assert(t.issues[j] == s.issues[j]);
        assert(s.issues[j].id == s.issues[k].id);
        if j < k {
            assert(s.issues[j].id < s.issues[k].id);
        } else {
            assert(s.issues[k].id < s.issues[j].id);
        }
    }
}

/// Nothing that a selector drops leaves anything selected.
pub proof fn lemma_filter_map_none<A, B>(a: Seq<A>, f: spec_fn(A) -> Option<B>)
    requires
        forall|i: int| 0 <= i < a.len() ==> f(#[trigger] a[i]) is None,
    ensures
        a.filter_map(f) == Seq::<B>::empty(),
    decreases a.len(),
{
    if a.len() > 0 {
        lemma_filter_map_none(a.drop_last(), f);
        assert(f(a[a.len() - 1]) is None);
    }
}

/// A new issue, numbered after every issue there is, comes last in the
/// listing of all issues, the rest unchanged, and reads back as it was made,
/// with no labels, comments, dependencies or memberships.
pub proof fn law_created_issue_shows(s: StoreV, x: IssueV)
    requires
        s.wf(),
        x.id > s.issue_seq,
    ensures
        ({
            let t = apply_change(s, ChangeV::InsertIssue(x));
            &&& list_view(t, None, None, None) == list_view(s, None, None, None).push(summary_of(s, x))
            &&& detail_view(t, x.id) == Some(
                DetailV {
                    issue: x,
                    labels: Seq::empty(),
                    comments: Seq::empty(),
                    blocked_by: Seq::empty(),
                    blocks: Seq::empty(),
                    parents: Seq::empty(),
                    children: Seq::empty(),
                },
            )
        }),
{
    let t = apply_change(s, ChangeV::InsertIssue(x));
    assert(list_pick(t, None, None, None) =~= list_pick(s, None, None, None));
    assert(t.issues.drop_last() =~= s.issues);
    assert(t.issues[s.issues.len() as int] == x);
    assert(has_issue(t, x.id));
    let j = choose|j: int| 0 <= j < t.issues.len() && t.issues[j].id == x.id;
    if j < s.issues.len() {
        assert(s.issues[j].id <= s.issue_seq);
    }
    assert forall|i: int| 0 <= i < t.labels.len() implies label_pick(t, x.id)(#[trigger] t.labels[i]) is None by {
        if t.links.contains((x.id, t.labels[i].id)) {
            let k = choose|k: int| 0 <= k < t.links.len() && t.links[k] == (x.id, t.labels[i].id);
            assert(s.links[k].0 <= s.issue_seq);
        }
    }
    lemma_filter_map_none(t.labels, label_pick(t, x.id));
    assert forall|i: int| 0 <= i < t.comments.len() implies comment_pick(x.id)(#[trigger] t.comments[i]) is None by {
        assert(s.comments[i].issue_id <= s.issue_seq);
    }
    lemma_filter_map_none(t.comments, comment_pick(x.id));
    assert forall|i: int| 0 <= i < t.deps.len() implies target_pick(x.id)(#[trigger] t.deps[i]) is None
        && source_pick(x.id)(t.deps[i]) is None by {
        assert(s.deps[i].0 <= s.issue_seq && s.deps[i].1 <= s.issue_seq);
    }
    lemma_filter_map_none(t.deps, target_pick(x.id));
    lemma_filter_map_none(t.deps, source_pick(x.id));
    assert forall|i: int| 0 <= i < t.members.len() implies target_pick(x.id)(#[trigger] t.members[i]) is None
        && source_pick(x.id)(t.members[i]) is None by {
        assert(s.members[i].0 <= s.issue_seq && s.members[i].1 <= s.issue_seq);
    }
    lemma_filter_map_none(t.members, target_pick(x.id));
    lemma_filter_map_none(t.members, source_pick(x.id));
}

/// A new comment shows last among its issue's comments; other issues'
/// comments are unchanged.
pub proof fn law_comment_shows(s: StoreV, c: CommentRowV, id: i64)
    ensures
        comments_of(apply_change(s, ChangeV::InsertComment(c)), id) == if id == c.issue_id {
            comments_of(s, id).push(CommentV { id: c.id, body: c.body, created_at: c.created_at })
        } else {
            comments_of(s, id)
        },
{
    let t = apply_change(s, ChangeV::InsertComment(c));
    assert(t.comments.drop_last() =~= s.comments);
}

/// A new dependency of `a` on `b` shows last among what blocks `a` and among
/// what `b` blocks.
pub proof fn law_dependency_shows(s: StoreV, a: i64, b: i64)
    ensures
        ({
            let t = apply_change(s, ChangeV::InsertDependency { issue_id: a, depends_on: b });
            &&& t.deps.filter_map(target_pick(a)) == s.deps.filter_map(target_pick(a)).push(b)
            &&& t.deps.filter_map(source_pick(b)) == s.deps.filter_map(source_pick(b)).push(a)
        }),
{
    let t = apply_change(s, ChangeV::InsertDependency { issue_id: a, depends_on: b });
    assert(t.deps.drop_last() =~= s.deps);
}

/// Dropping a pair that was just added gives back the table as it was.
pub proof fn lemma_without_push(v: Seq<(i64, i64)>, p: (i64, i64))
    requires
        !v.contains(p),
    ensures
        without(v.push(p), p) == v,
    decreases v.len(),
{
    reveal(Seq::filter);
    assert(v.push(p).drop_last() =~= v);
    if v.len() > 0 {
        assert(!v.drop_last().contains(p)) by {
            if v.drop_last().contains(p) {
                let k = choose|k: int| 0 <= k < v.drop_last().len() && v.drop_last()[k] == p;
                assert(v[k] == p);
            }
        }
        lemma_without_keeps(v, p);
    } else {
        assert(v.filter(other_than(p)) =~= v);
    }
}

/// Dropping a pair that is not there changes nothing.
pub proof fn lemma_without_keeps(v: Seq<(i64, i64)>, p: (i64, i64))
    requires
        !v.contains(p),
    ensures
        without(v, p) == v,
    decreases v.len(),
{
    reveal(Seq::filter);
    if v.len() > 0 {
        assert(!v.drop_last().contains(p)) by {
            if v.drop_last().contains(p) {
                let k = choose|k: int| 0 <= k < v.drop_last().len() && v.drop_last()[k] == p;
                assert(v[k] == p);
            }
        }
        lemma_without_keeps(v.drop_last(), p);
        assert(v.last() != p) by {
            assert(v[v.len() - 1] == v.last());
        }
        assert(v.drop_last().push(v.last()) =~= v);
    } else {
        assert(v.filter(other_than(p)) =~= v);
    }
}

/// Removing a dependency undoes adding it.
pub proof fn law_remove_dependency_undoes_add(s: StoreV, a: i64, b: i64)
    requires
        !s.deps.contains((a, b)),
    ensures
        apply_change(
            apply_change(s, ChangeV::InsertDependency { issue_id: a, depends_on: b }),
            ChangeV::DeleteDependency { issue_id: a, depends_on: b },
        ) == s,
{
    lemma_without_push(s.deps, (a, b));
}

/// Detaching an issue from a parent undoes attaching it.
pub proof fn law_detach_undoes_attach(s: StoreV, child: i64, parent: i64)
    requires
        !s.members.contains((child, parent)),
    ensures
        apply_change(
            apply_change(s, ChangeV::InsertMembership { child, parent }),
            ChangeV::DeleteMembership { child, parent },
        ) == s,
{
    lemma_without_push(s.members, (child, parent));
}

/// A new label goes at a place inside the table.
pub proof fn lemma_label_pos_range(labels: Seq<LabelV>, name: Seq<char>)
    ensures
        0 <= label_pos(labels, name) <= labels.len(),
    decreases labels.len(),
{
    if labels.len() > 0 {
        lemma_label_pos_range(labels.drop_first(), name);
    }
}

/// After labelling, the issue carries the label.
pub proof fn law_label_add_shows(s: StoreV, id: i64, name: Seq<char>)
    ensures
        has_label(apply_changes(s, label_changes(s, id, name)), id, name),
{
    let lid = label_id_for(s, name);
    let cs = label_changes(s, id, name);
    let link = ChangeV::InsertLink { issue_id: id, label_id: lid };
    if label_exists(s, name) {
        let k = label_index(s, name);
        let t = if s.links.contains((id, lid)) {
            assert(cs =~= Seq::<ChangeV>::empty());
            s
        } else {
            assert(cs =~= seq![link]);
            lemma_apply_one(s, link);
            apply_change(s, link)
        };
        assert(apply_changes(s, cs) == t);
        assert(t.labels == s.labels);
        assert(t.links.contains((id, lid))) by {
            if !s.links.contains((id, lid)) {
                assert(t.links[t.links.len() - 1] == (id, lid));
            }
        }
        assert(label_pick(t, id)(t.labels[k]) == Some(name));
        lemma_filter_map_keeps(t.labels, label_pick(t, id), k);
    } else {
        let l = LabelV { id: lid, name };
        let ins = ChangeV::InsertLabel(l);
        let u = apply_change(s, ins);
        let pos = label_pos(s.labels, name);
        lemma_label_pos_range(s.labels, name);
        let t = if s.links.contains((id, lid)) {
            assert(cs =~= seq![ins]);
            lemma_apply_one(s, ins);
            u
        } else {
            assert(cs =~= seq![ins, link]);
            lemma_apply_two(s, ins, link);
            apply_change(u, link)
        };
        assert(apply_changes(s, cs) == t);
        assert(t.labels[pos] == l);
        assert(t.links.contains((id, lid))) by {
            if !s.links.contains((id, lid)) {
                assert(t.links[t.links.len() - 1] == (id, lid));
            }
        }
        assert(label_pick(t, id)(t.labels[pos]) == Some(name));
        lemma_filter_map_keeps(t.labels, label_pick(t, id), pos);
    }
}

/// After the label is detached, the issue no longer carries it.
pub proof fn law_label_remove_shows(s: StoreV, id: i64, name: Seq<char>)
    requires
        s.wf(),
        label_exists(s, name),
    ensures
        !has_label(
            apply_change(s, ChangeV::DeleteLink { issue_id: id, label_id: label_id_for(s, name) }),
            id,
            name,
        ),
{
    let lid = label_id_for(s, name);
    let t = apply_change(s, ChangeV::DeleteLink { issue_id: id, label_id: lid });
    let k = label_index(s, name);
    if has_label(t, id, name) {
        t.labels.lemma_filter_map_contains(label_pick(t, id), name);
        let l = choose|l: LabelV| #[trigger] t.labels.contains(l) && label_pick(t, id)(l) == Some(name);
        let m = choose|m: int| 0 <= m < t.labels.len() && t.labels[m] == l;
        if m != k {
            lemma_chars_lt_irreflexive(name);
        }
        assert(l.id == lid);
        let q = choose|q: int| 0 <= q < t.links.len() && t.links[q] == (id, lid);
        s.links.lemma_filter_pred(other_than((id, lid)), q);
    }
}

/// Two sequences that a pair of selectors maps alike, element by element,
/// select alike.
pub proof fn lemma_filter_map_alike<A, B>(
    a: Seq<A>,
    b: Seq<A>,
    f: spec_fn(A) -> Option<B>,
    g: spec_fn(A) -> Option<B>,
)
    requires
        a.len() == b.len(),
        forall|i: int| 0 <= i < a.len() ==> f(#[trigger] a[i]) == g(b[i]),
    ensures
        a.filter_map(f) == b.filter_map(g),
    decreases a.len(),
{
    if a.len() > 0 {
        lemma_filter_map_alike(a.drop_last(), b.drop_last(), f, g);
        assert(f(a[a.len() - 1]) == g(b[b.len() - 1]));
    }
}

/// Rewriting an issue without touching its id, title or status leaves the
/// frontier as it was.
proof fn lemma_frontier_ignores_anchors(
    u: StoreV,
    id: i64,
    h: spec_fn(IssueV) -> IssueV,
    label: Option<Seq<char>>,
    map: Option<i64>,
)
    requires
        forall|x: IssueV|
            #![trigger h(x)]
            h(x).id == x.id && h(x).title == x.title && h(x).status == x.status,
    ensures
        frontier_view(map_issue(u, id, h), label, map) == frontier_view(u, label, map),
{
    let t = map_issue(u, id, h);
    assert forall|j: int| 0 <= j < t.issues.len() implies #[trigger] t.issues[j].id == u.issues[j].id
        && t.issues[j].status == u.issues[j].status && t.issues[j].title == u.issues[j].title by {
        if u.issues[j].id == id {
            assert(t.issues[j] == h(u.issues[j]));
        }
    }
    assert forall|x: i64| #[trigger] is_blocked(t, x) == is_blocked(u, x) by {
        if is_blocked(t, x) {
            let j = choose|j: int| 0 <= j < t.issues.len() && is_unresolved(t, x, #[trigger] t.issues[j]);
            assert(is_unresolved(u, x, u.issues[j]));
        }
        if is_blocked(u, x) {
            let j = choose|j: int| 0 <= j < u.issues.len() && is_unresolved(u, x, #[trigger] u.issues[j]);
            assert(is_unresolved(t, x, t.issues[j]));
        }
    }
    assert forall|x: i64| #[trigger] label_pick(t, x) == label_pick(u, x) by {
        assert(label_pick(t, x) =~= label_pick(u, x));
    }
    assert forall|i: int| 0 <= i < t.issues.len() implies frontier_pick(t, label, map)(#[trigger] t.issues[i])
        == frontier_pick(u, label, map)(u.issues[i]) by {
        let a = t.issues[i];
        let b = u.issues[i];
        assert(a.id == b.id && a.status == b.status && a.title == b.title);
        assert(label_names(t, a.id) == label_names(u, b.id));
        assert(is_blocked(t, a.id) == is_blocked(u, b.id));
        assert(t.members == u.members);
        assert(has_child(t, a.id) == has_child(u, b.id));
        assert(super::store::has_parent(t, a.id) == super::store::has_parent(u, b.id));
        assert(summary_of(t, a) == summary_of(u, b));
        assert(super::store::frontier_pass(t, label, map, a) == super::store::frontier_pass(u, label, map, b));
    }
    lemma_filter_map_alike(t.issues, u.issues, frontier_pick(t, label, map), frontier_pick(u, label, map));
}

/// Closing an issue never takes another issue off the frontier, and the
/// closed issue is not on it afterwards.
pub proof fn law_close_keeps_frontier(
    s: StoreV,
    closed: i64,
    resolved_by: Option<Seq<char>>,
    now: Seq<char>,
    label: Option<Seq<char>>,
    map: Option<i64>,
    y: SummaryV,
)
    requires
        s.wf(),
        has_issue(s, closed),
    ensures
        ({
            let t = apply_changes(s, close_changes(issue_of(s, closed), resolved_by, now));
            &&& frontier_view(s, label, map).contains(y) && y.id != closed ==> frontier_view(
                t,
                label,
                map,
            ).contains(y)
            &&& frontier_view(t, label, map).contains(y) ==> y.id != closed
        }),
{
    let x0 = issue_of(s, closed);
    let c1 = ChangeV::SetStatus { id: closed, status: closed_status(), updated_at: now };
    let u = apply_change(s, c1);
    let t = apply_changes(s, close_changes(x0, resolved_by, now));
    let k = choose|k: int| 0 <= k < s.issues.len() && s.issues[k].id == closed;
    let f = |x: IssueV| IssueV { status: closed_status(), updated_at: now, ..x };
    lemma_map_issue_at(s, k, f);
    assert(u.issues == s.issues.update(k, f(s.issues[k])));
    // The frontier after closing is the frontier of `u`.
    match resolved_by {
        None => {
            assert(close_changes(x0, resolved_by, now) =~= seq![c1]);
            lemma_apply_one(s, c1);
        },
        Some(hash) => {
            let c2 = anchors_change(closed_issue(x0, resolved_by, now));
            assert(close_changes(x0, resolved_by, now) =~= seq![c1, c2]);
            lemma_apply_two(s, c1, c2);
            let x1 = closed_issue(x0, resolved_by, now);
            let h = |x: IssueV| IssueV {
                opened_at: x1.opened_at,
                resolved_by: x1.resolved_by,
                updated_at: x1.updated_at,
                ..x
            };
            assert(apply_change(u, c2) == map_issue(u, closed, h));
            lemma_frontier_ignores_anchors(u, closed, h, label, map);
        },
    }
    assert(frontier_view(t, label, map) == frontier_view(u, label, map));
    if frontier_view(s, label, map).contains(y) && y.id != closed {
        s.issues.lemma_filter_map_contains(frontier_pick(s, label, map), y);
        let x = choose|x| #[trigger] s.issues.contains(x) && frontier_pick(s, label, map)(x) == Some(y);
        let i = choose|i: int| 0 <= i < s.issues.len() && s.issues[i] == x;
        assert(i != k);
        assert(u.issues[i] == x);
        law_close_unblocks(s, closed, now, x.id);
        assert(!is_blocked(u, x.id)) by {
            if is_blocked(u, x.id) {
                let j = choose|j: int|
                    0 <= j < s.issues.len() && #[trigger] is_unresolved(s, x.id, s.issues[j]) && s.issues[j].id
                        != closed;
                assert(is_blocked(s, x.id));
            }
        }
        assert(label_pick(u, x.id) =~= label_pick(s, x.id));
        assert(frontier_pick(u, label, map)(u.issues[i]) == Some(y));
        lemma_filter_map_keeps(u.issues, frontier_pick(u, label, map), i);
    }
    if frontier_view(u, label, map).contains(y) {
        u.issues.lemma_filter_map_contains(frontier_pick(u, label, map), y);
        let x = choose|x| #[trigger] u.issues.contains(x) && frontier_pick(u, label, map)(x) == Some(y);
        let j = choose|j: int| 0 <= j < u.issues.len() && u.issues[j] == x;
        if y.id == closed {
            if j != k {
                assert(u.issues[j] == s.issues[j]);
                if j < k {
                    assert(s.issues[j].id < s.issues[k].id);
                } else {
                    assert(s.issues[k].id < s.issues[j].id);
                }
            }
            reveal_strlit("closed");
            reveal_strlit("open");
            assert(closed_status() != open_status()) by {
                assert(closed_status().len() != open_status().len());
            }
        }
    }
}

/// Every open issue that passes the label filter is on the default frontier,
/// among the blocked issues, or a map or attached to one (which the default
/// frontier leaves out); in a store without membership edges, every such
/// issue is on the frontier or among the blocked issues.
pub proof fn law_open_issues_covered(s: StoreV, label: Option<Seq<char>>, i: int)
    requires
        0 <= i < s.issues.len(),
        s.issues[i].status == open_status(),
        label_pass(s, label, s.issues[i].id),
    ensures
        ({
            let x = s.issues[i];
            let b = BlockedV { id: x.id, title: x.title, blocked_by: unresolved(s, x.id) };
            &&& is_blocked(s, x.id) ==> blocked_view(s, label).contains(b)
            &&& !is_blocked(s, x.id) && !has_child(s, x.id) && !has_parent(s, x.id) ==> frontier_view(
                s,
                label,
                None,
            ).contains(summary_of(s, x))
            &&& s.members.len() == 0 ==> frontier_view(s, label, None).contains(summary_of(s, x))
                || blocked_view(s, label).contains(b)
        }),
{
    let x = s.issues[i];
    if is_blocked(s, x.id) {
        lemma_filter_map_keeps(s.issues, blocked_pick(s, label), i);
    }
    if !is_blocked(s, x.id) && !has_child(s, x.id) && !has_parent(s, x.id) {
        lemma_filter_map_keeps(s.issues, frontier_pick(s, label, None), i);
    }
}

/// What the frontier and the blocked view list are open issues that pass the
/// label filter: unblocked ones on the frontier, blocked ones, with what
/// blocks them, in the blocked view.
pub proof fn law_listed_issues_are_open(
    s: StoreV,
    label: Option<Seq<char>>,
    map: Option<i64>,
    y: SummaryV,
    z: BlockedV,
)
    ensures
        frontier_view(s, label, map).contains(y) ==> exists|i: int|
            0 <= i < s.issues.len() && #[trigger] summary_of(s, s.issues[i]) == y && s.issues[i].status
                == open_status() && label_pass(s, label, s.issues[i].id) && !is_blocked(s, s.issues[i].id),
        blocked_view(s, label).contains(z) ==> exists|i: int|
            0 <= i < s.issues.len() && #[trigger] s.issues[i].id == z.id && s.issues[i].title == z.title
                && s.issues[i].status == open_status() && label_pass(s, label, s.issues[i].id) && is_blocked(
                s,
                s.issues[i].id,
            ) && z.blocked_by == unresolved(s, s.issues[i].id),
{
    if frontier_view(s, label, map).contains(y) {
        s.issues.lemma_filter_map_contains(frontier_pick(s, label, map), y);
        let x = choose|x| #[trigger] s.issues.contains(x) && frontier_pick(s, label, map)(x) == Some(y);
        let i = choose|i: int| 0 <= i < s.issues.len() && s.issues[i] == x;
        assert(summary_of(s, s.issues[i]) == y);
    }
    if blocked_view(s, label).contains(z) {
        s.issues.lemma_filter_map_contains(blocked_pick(s, label), z);
        let x = choose|x| #[trigger] s.issues.contains(x) && blocked_pick(s, label)(x) == Some(z);
        let i = choose|i: int| 0 <= i < s.issues.len() && s.issues[i] == x;
        assert(s.issues[i].id == z.id);
    }
}

/// Selecting from a sequence in increasing key order, keeping each key,
/// gives a sequence in increasing key order.
pub proof fn lemma_filter_map_ascending<A, B>(
    a: Seq<A>,
    f: spec_fn(A) -> Option<B>,
    ka: spec_fn(A) -> int,
    kb: spec_fn(B) -> int,
)
    requires
        forall|i: int, j: int| 0 <= i < j < a.len() ==> ka(a[i]) < ka(a[j]),
        forall|x: A| #[trigger] f(x) is Some ==> kb(f(x)->0) == ka(x),
    ensures
        forall|i: int, j: int|
            0 <= i < j < a.filter_map(f).len() ==> kb(a.filter_map(f)[i]) < kb(a.filter_map(f)[j]),
    decreases a.len(),
{
    if a.len() > 0 {
        let rest = a.drop_last();
        lemma_filter_map_ascending(rest, f, ka, kb);
        let r = rest.filter_map(f);
        match f(a.last()) {
            Some(y) => {
                let out = a.filter_map(f);
                assert(out == r + seq![y]);
                assert forall|i: int| 0 <= i < r.len() implies kb(#[trigger] r[i]) < kb(y) by {
                    assert(r.contains(r[i]));
                    rest.lemma_filter_map_contains(f, r[i]);
                    let t = choose|t: A| #[trigger] rest.contains(t) && f(t) == Some(r[i]);
                    let m = choose|m: int| 0 <= m < rest.len() && rest[m] == t;
                    assert(a[m] == t);
                    assert(ka(a[m]) < ka(a[a.len() - 1]));
                }
                assert forall|i: int, j: int| 0 <= i < j < out.len() implies kb(out[i]) < kb(out[j]) by {
                    if j == out.len() - 1 {
                        assert(out[i] == r[i]);
                    } else {
                        assert(out[i] == r[i] && out[j] == r[j]);
                    }
                }
            },
            None => {},
        }
    }
}

/// The frontier and the blocked view each list issues in increasing id order.
pub proof fn law_frontier_blocked_ascending(s: StoreV, label: Option<Seq<char>>, map: Option<i64>)
    requires
        s.wf(),
    ensures
        forall|i: int, j: int|
            0 <= i < j < frontier_view(s, label, map).len() ==> frontier_view(s, label, map)[i].id
                < frontier_view(s, label, map)[j].id,
        forall|i: int, j: int|
            0 <= i < j < blocked_view(s, label).len() ==> blocked_view(s, label)[i].id < blocked_view(
                s,
                label,
            )[j].id,
{
    let ka = |x: IssueV| x.id as int;
    lemma_filter_map_ascending(s.issues, frontier_pick(s, label, map), ka, |y: SummaryV| y.id as int);
    lemma_filter_map_ascending(s.issues, blocked_pick(s, label), ka, |y: BlockedV| y.id as int);
}

/// Whether a frontier entry is an open, unblocked issue passing the filter.
pub open spec fn unblocked_open_issue(s: StoreV, label: Option<Seq<char>>, y: SummaryV) -> bool {
    exists|k: int|
        0 <= k < s.issues.len() && #[trigger] summary_of(s, s.issues[k]) == y && s.issues[k].status
            == open_status() && label_pass(s, label, s.issues[k].id) && !is_blocked(s, s.issues[k].id)
}

/// Whether a blocked-view entry is an open, blocked issue passing the
/// filter, with exactly its unresolved dependencies.
pub open spec fn blocked_open_issue(s: StoreV, label: Option<Seq<char>>, z: BlockedV) -> bool {
    exists|k: int|
        0 <= k < s.issues.len() && #[trigger] s.issues[k].id == z.id && s.issues[k].title == z.title
            && s.issues[k].status == open_status() && label_pass(s, label, s.issues[k].id) && is_blocked(
            s,
            s.issues[k].id,
        ) && z.blocked_by == unresolved(s, s.issues[k].id)
}

/// In a store without membership edges, the open issues that pass the label
/// filter are split between the frontier and the blocked view: each list is
/// in increasing id order, no issue is on both, every such issue is on one
/// (in the blocked view exactly when a dependency is unresolved), and each
/// listed issue is such an issue.
pub proof fn law_open_issues_partition(s: StoreV, label: Option<Seq<char>>)
    requires
        s.wf(),
        s.members.len() == 0,
    ensures
        ({
            let f = frontier_view(s, label, None);
            let b = blocked_view(s, label);
            &&& forall|i: int, j: int| 0 <= i < j < f.len() ==> f[i].id < f[j].id
            &&& forall|i: int, j: int| 0 <= i < j < b.len() ==> b[i].id < b[j].id
            &&& forall|i: int, j: int| 0 <= i < f.len() && 0 <= j < b.len() ==> f[i].id != b[j].id
            &&& forall|k: int|
                0 <= k < s.issues.len() && s.issues[k].status == open_status() && label_pass(
                    s,
                    label,
                    s.issues[k].id,
                ) ==> if is_blocked(s, s.issues[k].id) {
                    b.contains(
                        BlockedV {
                            id: s.issues[k].id,
                            title: s.issues[k].title,
                            blocked_by: unresolved(s, s.issues[k].id),
                        },
                    )
                } else {
                    f.contains(summary_of(s, s.issues[k]))
                }
            &&& forall|i: int| 0 <= i < f.len() ==> unblocked_open_issue(s, label, #[trigger] f[i])
            &&& forall|j: int| 0 <= j < b.len() ==> blocked_open_issue(s, label, #[trigger] b[j])
        }),
{
    let f = frontier_view(s, label, None);
    let b = blocked_view(s, label);
    law_frontier_blocked_ascending(s, label, None);
    assert forall|i: int, j: int| 0 <= i < f.len() && 0 <= j < b.len() implies f[i].id != b[j].id by {
        assert(f.contains(f[i]));
        assert(b.contains(b[j]));
        law_frontier_blocked_disjoint(s, label, None, label, f[i], b[j]);
    }
    assert forall|k: int|
        0 <= k < s.issues.len() && s.issues[k].status == open_status() && label_pass(s, label, s.issues[k].id)
        implies (if is_blocked(s, s.issues[k].id) {
        b.contains(
            BlockedV { id: s.issues[k].id, title: s.issues[k].title, blocked_by: unresolved(s, s.issues[k].id) },
        )
    } else {
        f.contains(summary_of(s, s.issues[k]))
    }) by {
        law_open_issues_covered(s, label, k);
        let id = s.issues[k].id;
        assert(!has_child(s, id));
        assert(!has_parent(s, id));
    }
    assert forall|i: int| 0 <= i < f.len() implies unblocked_open_issue(s, label, #[trigger] f[i]) by {
        assert(f.contains(f[i]));
        law_listed_issues_are_open(s, label, None, f[i], b[0]);
    }
    assert forall|j: int| 0 <= j < b.len() implies blocked_open_issue(s, label, #[trigger] b[j]) by {
        assert(b.contains(b[j]));
        law_listed_issues_are_open(s, label, None, f[0], b[j]);
    }
}

/// The frontier of a map holds only issues attached to that map, and holds
/// every open issue attached to it that passes the label filter, has every
/// dependency closed and has no issue attached to it.
pub proof fn law_frontier_map_scope(s: StoreV, label: Option<Seq<char>>, m: i64, y: SummaryV, i: int)
    ensures
        frontier_view(s, label, Some(m)).contains(y) ==> s.members.contains((y.id, m)),
        0 <= i < s.issues.len() && s.issues[i].status == open_status() && label_pass(s, label, s.issues[i].id)
            && s.members.contains((s.issues[i].id, m)) && (forall|j: int|
            0 <= j < s.issues.len() && s.deps.contains((s.issues[i].id, s.issues[j].id))
                ==> #[trigger] s.issues[j].status == closed_status()) && (forall|k: int|
            0 <= k < s.members.len() ==> (#[trigger] s.members[k]).1 != s.issues[i].id)
            ==> frontier_view(s, label, Some(m)).contains(summary_of(s, s.issues[i])),
{
    if frontier_view(s, label, Some(m)).contains(y) {
        s.issues.lemma_filter_map_contains(frontier_pick(s, label, Some(m)), y);
    }
    if 0 <= i < s.issues.len() && s.issues[i].status == open_status() && label_pass(s, label, s.issues[i].id)
        && s.members.contains((s.issues[i].id, m)) && (forall|j: int|
        0 <= j < s.issues.len() && s.deps.contains((s.issues[i].id, s.issues[j].id))
            ==> #[trigger] s.issues[j].status == closed_status()) && (forall|k: int|
        0 <= k < s.members.len() ==> (#[trigger] s.members[k]).1 != s.issues[i].id) {
        let x = s.issues[i];
        assert(!is_blocked(s, x.id)) by {
            if is_blocked(s, x.id) {
                let j = choose|j: int| 0 <= j < s.issues.len() && is_unresolved(s, x.id, #[trigger] s.issues[j]);
                assert(s.issues[j].status == closed_status());
            }
        }
        lemma_filter_map_keeps(s.issues, frontier_pick(s, label, Some(m)), i);
    }
}

/// Listing by parent holds exactly the issues attached to that parent.
pub proof fn law_list_parent_scope(s: StoreV, p: i64, y: SummaryV, i: int)
    ensures
        list_view(s, None, None, Some(p)).contains(y) ==> s.members.contains((y.id, p)),
        0 <= i < s.issues.len() && s.members.contains((s.issues[i].id, p)) ==> list_view(
            s,
            None,
            None,
            Some(p),
        ).contains(summary_of(s, s.issues[i])),
{
    if list_view(s, None, None, Some(p)).contains(y) {
        s.issues.lemma_filter_map_contains(list_pick(s, None, None, Some(p)), y);
    }
    if 0 <= i < s.issues.len() && s.members.contains((s.issues[i].id, p)) {
        lemma_filter_map_keeps(s.issues, list_pick(s, None, None, Some(p)), i);
    }
}

/// After an issue is attached to a parent, listing by that parent shows it.
pub proof fn law_attached_issue_listed(s: StoreV, c: i64, p: i64)
    requires
        s.wf(),
        has_issue(s, c),
    ensures
        list_view(apply_change(s, ChangeV::InsertMembership { child: c, parent: p }), None, None, Some(p)).contains(
            summary_of(s, issue_of(s, c)),
        ),
{
    let t = apply_change(s, ChangeV::InsertMembership { child: c, parent: p });
    let k = choose|k: int| 0 <= k < s.issues.len() && s.issues[k].id == c;
    super::store::lemma_issue_at(s, k);
    assert(t.members[t.members.len() - 1] == (c, p));
    assert(t.members.contains((t.issues[k].id, p)));
    assert(label_pick(t, c) =~= label_pick(s, c));
    law_list_parent_scope(t, p, summary_of(t, t.issues[k]), k);
}

/// The blocked view lists, for each blocked issue, exactly its dependencies
/// that are not closed: each one listed is a dependency of the issue, not
/// closed, and as the table has it; each dependency not closed is listed.
pub proof fn law_blocked_lists_unresolved(
    s: StoreV,
    label: Option<Seq<char>>,
    z: BlockedV,
    d: DependencyV,
    j: int,
)
    ensures
        blocked_view(s, label).contains(z) && z.blocked_by.contains(d) ==> s.deps.contains((z.id, d.id))
            && d.status != closed_status() && exists|k: int|
            0 <= k < s.issues.len() && #[trigger] s.issues[k].id == d.id && s.issues[k].title == d.title
                && s.issues[k].status == d.status,
        blocked_view(s, label).contains(z) && 0 <= j < s.issues.len() && s.deps.contains(
            (z.id, s.issues[j].id),
        ) && s.issues[j].status != closed_status() ==> z.blocked_by.contains(
            DependencyV { id: s.issues[j].id, title: s.issues[j].title, status: s.issues[j].status },
        ),
{
    if blocked_view(s, label).contains(z) {
        s.issues.lemma_filter_map_contains(blocked_pick(s, label), z);
        let x = choose|x| #[trigger] s.issues.contains(x) && blocked_pick(s, label)(x) == Some(z);
        assert(z.blocked_by == unresolved(s, x.id));
        assert(z.id == x.id);
        if z.blocked_by.contains(d) {
            s.issues.lemma_filter_map_contains(unresolved_pick(s, x.id), d);
            let t = choose|t| #[trigger] s.issues.contains(t) && unresolved_pick(s, x.id)(t) == Some(d);
            let k = choose|k: int| 0 <= k < s.issues.len() && s.issues[k] == t;
            assert(s.issues[k].id == d.id);
        }
        if 0 <= j < s.issues.len() && s.deps.contains((z.id, s.issues[j].id)) && s.issues[j].status
            != closed_status() {
            lemma_filter_map_keeps(s.issues, unresolved_pick(s, x.id), j);
        }
    }
}

/// What a listing holds: each entry is an issue of the store, with its
/// title, status and labels, that meets every filter given; and every issue
/// that meets them is listed.
pub proof fn law_list_filters(
    s: StoreV,
    status: Option<Seq<char>>,
    label: Option<Seq<char>>,
    parent: Option<i64>,
    y: SummaryV,
    i: int,
)
    ensures
        list_view(s, status, label, parent).contains(y) ==> {
            &&& exists|k: int|
                0 <= k < s.issues.len() && #[trigger] s.issues[k].id == y.id && s.issues[k].title == y.title
                    && s.issues[k].status == y.status
            &&& y.labels == label_names(s, y.id)
            &&& status matches Some(st) ==> y.status == st
            &&& label matches Some(l) ==> y.labels.contains(l)
            &&& parent matches Some(p) ==> s.members.contains((y.id, p))
        },
        0 <= i < s.issues.len() && (status matches Some(st) ==> s.issues[i].status == st) && (label matches Some(
            l,
        ) ==> has_label(s, s.issues[i].id, l)) && (parent matches Some(p) ==> s.members.contains(
            (s.issues[i].id, p),
        )) ==> list_view(s, status, label, parent).contains(summary_of(s, s.issues[i])),
{
    if list_view(s, status, label, parent).contains(y) {
        s.issues.lemma_filter_map_contains(list_pick(s, status, label, parent), y);
        let x = choose|x| #[trigger] s.issues.contains(x) && list_pick(s, status, label, parent)(x) == Some(y);
        let k = choose|k: int| 0 <= k < s.issues.len() && s.issues[k] == x;
        assert(s.issues[k].id == y.id);
    }
    if 0 <= i < s.issues.len() && (status matches Some(st) ==> s.issues[i].status == st) && (label matches Some(
        l,
    ) ==> has_label(s, s.issues[i].id, l)) && (parent matches Some(p) ==> s.members.contains(
        (s.issues[i].id, p),
    )) {
        lemma_filter_map_keeps(s.issues, list_pick(s, status, label, parent), i);
    }
}

/// An issue carries a label name exactly when a label of that name is
/// linked to it.
pub proof fn law_label_names_are_linked(s: StoreV, id: i64, name: Seq<char>)
    ensures
        label_names(s, id).contains(name) <==> exists|j: int|
            0 <= j < s.labels.len() && #[trigger] s.labels[j].name == name && s.links.contains((id, s.labels[j].id)),
{
    if label_names(s, id).contains(name) {
        s.labels.lemma_filter_map_contains(label_pick(s, id), name);
        let l = choose|l| #[trigger] s.labels.contains(l) && label_pick(s, id)(l) == Some(name);
        let j = choose|j: int| 0 <= j < s.labels.len() && s.labels[j] == l;
        assert(s.labels[j].name == name);
    }
    if exists|j: int|
        0 <= j < s.labels.len() && #[trigger] s.labels[j].name == name && s.links.contains((id, s.labels[j].id)) {
        let j = choose|j: int|
            0 <= j < s.labels.len() && #[trigger] s.labels[j].name == name && s.links.contains((id, s.labels[j].id));
        lemma_filter_map_keeps(s.labels, label_pick(s, id), j);
    }
}

proof fn lemma_targets(v: Seq<(i64, i64)>, id: i64, o: i64)
    ensures
        v.filter_map(target_pick(id)).contains(o) <==> v.contains((id, o)),
        v.filter_map(source_pick(id)).contains(o) <==> v.contains((o, id)),
{
    if v.filter_map(target_pick(id)).contains(o) {
        v.lemma_filter_map_contains(target_pick(id), o);
    }
    if v.contains((id, o)) {
        let k = choose|k: int| 0 <= k < v.len() && v[k] == (id, o);
        lemma_filter_map_keeps(v, target_pick(id), k);
    }
    if v.filter_map(source_pick(id)).contains(o) {
        v.lemma_filter_map_contains(source_pick(id), o);
    }
    if v.contains((o, id)) {
        let k = choose|k: int| 0 <= k < v.len() && v[k] == (o, id);
        lemma_filter_map_keeps(v, source_pick(id), k);
    }
}

/// An issue in detail is the issue with that id, and its edges are exactly
/// the store's: it is blocked by `o` when it depends on `o`, blocks `o` when
/// `o` depends on it, has `o` as parent when attached to `o`, and has `o` as
/// child when `o` is attached to it; its comments are exactly the comment
/// rows of the issue.
pub proof fn law_detail_edges(s: StoreV, id: i64, o: i64, c: CommentV)
    requires
        s.wf(),
    ensures
        detail_view(s, id) matches Some(d) ==> {
            &&& d.issue.id == id
            &&& (exists|k: int| 0 <= k < s.issues.len() && #[trigger] s.issues[k] == d.issue)
            &&& d.blocked_by.contains(o) <==> s.deps.contains((id, o))
            &&& d.blocks.contains(o) <==> s.deps.contains((o, id))
            &&& d.parents.contains(o) <==> s.members.contains((id, o))
            &&& d.children.contains(o) <==> s.members.contains((o, id))
            &&& d.comments.contains(c) <==> s.comments.contains(
                CommentRowV { id: c.id, issue_id: id, body: c.body, created_at: c.created_at },
            )
        },
        detail_view(s, id) is None <==> !has_issue(s, id),
{
    if has_issue(s, id) {
        let k = choose|k: int| 0 <= k < s.issues.len() && s.issues[k].id == id;
        super::store::lemma_issue_at(s, k);
        lemma_targets(s.deps, id, o);
        lemma_targets(s.members, id, o);
        let row = CommentRowV { id: c.id, issue_id: id, body: c.body, created_at: c.created_at };
        if comments_of(s, id).contains(c) {
            s.comments.lemma_filter_map_contains(comment_pick(id), c);
            let r = choose|r| #[trigger] s.comments.contains(r) && comment_pick(id)(r) == Some(c);
            assert(r == row);
        }
        if s.comments.contains(row) {
            let m = choose|m: int| 0 <= m < s.comments.len() && s.comments[m] == row;
            lemma_filter_map_keeps(s.comments, comment_pick(id), m);
        }
    }
}

} // verus!
