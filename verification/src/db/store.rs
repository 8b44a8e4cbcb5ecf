//! The tables of the store, the invariant they keep, and what each query and
//! each change means over their views.

use vstd::prelude::*;

use super::{
    Change, ChangeV, CommentRow, CommentRowV, CommentV, DbError, DependencyV, DetailV, Issue,
    IssueV, Label, LabelV, SummaryV, BlockedV,
};
use crate::text::{chars_lt, lemma_chars_lt_irreflexive, lemma_chars_lt_transitive};

verus! {

/// The store: one table per kind of row, the largest id each id-numbered
/// table has handed out, and the changes made since the caller last took them.
///
/// Issues and comments are kept in id order, labels in name order; a label
/// is attached to an issue by a link `(issue, label)`, an issue depends on
/// another by a dependency `(issue, depends_on)`, and an issue belongs to a
/// parent by a membership `(child, parent)`.
pub struct Store {
    pub issues: Vec<Issue>,
    pub labels: Vec<Label>,
    pub links: Vec<(i64, i64)>,
    pub comments: Vec<CommentRow>,
    pub deps: Vec<(i64, i64)>,
    pub members: Vec<(i64, i64)>,
    pub issue_seq: i64,
    pub label_seq: i64,
    pub comment_seq: i64,
    pub changes: Vec<Change>,
}

/// The views of issue rows.
pub open spec fn issues_view(v: Seq<Issue>) -> Seq<IssueV> {
    v.map_values(|i: Issue| i@)
}

/// The views of label rows.
pub open spec fn labels_view(v: Seq<Label>) -> Seq<LabelV> {
    v.map_values(|l: Label| l@)
}

/// The views of comment rows.
pub open spec fn comments_view(v: Seq<CommentRow>) -> Seq<CommentRowV> {
    v.map_values(|c: CommentRow| c@)
}

/// The view of a [`Store`]'s tables.
pub struct StoreV {
    pub issues: Seq<IssueV>,
    pub labels: Seq<LabelV>,
    pub links: Seq<(i64, i64)>,
    pub comments: Seq<CommentRowV>,
    pub deps: Seq<(i64, i64)>,
    pub members: Seq<(i64, i64)>,
    pub issue_seq: i64,
    pub label_seq: i64,
    pub comment_seq: i64,
}

impl View for Store {
    type V = StoreV;

    open spec fn view(&self) -> StoreV {
        StoreV {
            issues: issues_view(self.issues@),
            labels: labels_view(self.labels@),
            links: self.links@,
            comments: comments_view(self.comments@),
            deps: self.deps@,
            members: self.members@,
            issue_seq: self.issue_seq,
            label_seq: self.label_seq,
            comment_seq: self.comment_seq,
        }
    }
}

impl Store {
    /// The changes not yet taken, as views.
    pub open spec fn pending(&self) -> Seq<ChangeV> {
        self.changes@.map_values(|c: Change| c@)
    }

    /// The store's invariant.
    pub open spec fn wf(&self) -> bool {
        self@.wf()
    }
}

impl StoreV {
    /// Issues in strictly increasing id order, ids from 1 to the issue
    /// sequence; labels in strictly increasing name order with distinct ids
    /// from 1 to the label sequence; comments in strictly increasing id order
    /// up to the comment sequence; no link, dependency or membership twice;
    /// every link, comment, dependency and membership refers to issues whose
    /// ids have been handed out, and every link names a label in the table.
    pub open spec fn wf(self) -> bool {
        &&& self.rows_refer_to_issues()
        &&& self.tables_ordered()
    }

    /// Every link, comment, dependency and membership refers to issues whose
    /// ids have been handed out: between 1 and the issue sequence; and every
    /// link names a label in the table.
    pub open spec fn rows_refer_to_issues(self) -> bool {
        &&& forall|k: int|
            #![trigger self.links[k]]
            0 <= k < self.links.len() ==> 1 <= self.links[k].0 <= self.issue_seq && has_label_id(
                self.labels,
                self.links[k].1,
            )
        &&& forall|k: int|
            0 <= k < self.comments.len() ==> 1 <= #[trigger] self.comments[k].issue_id <= self.issue_seq
        &&& forall|k: int|
            #![trigger self.deps[k]]
            0 <= k < self.deps.len() ==> 1 <= self.deps[k].0 <= self.issue_seq && 1 <= self.deps[k].1
                <= self.issue_seq
        &&& forall|k: int|
            #![trigger self.members[k]]
            0 <= k < self.members.len() ==> 1 <= self.members[k].0 <= self.issue_seq && 1
                <= self.members[k].1 <= self.issue_seq
    }

    /// The ordering, numbering and uniqueness of the tables.
    pub open spec fn tables_ordered(self) -> bool {
        &&& forall|i: int, j: int|
            0 <= i < j < self.issues.len() ==> self.issues[i].id < self.issues[j].id
        &&& forall|i: int| 0 <= i < self.issues.len() ==> 1 <= #[trigger] self.issues[i].id <= self.issue_seq
        &&& forall|i: int, j: int|
            0 <= i < j < self.labels.len() ==> chars_lt(self.labels[i].name, self.labels[j].name)
        &&& forall|i: int, j: int|
            0 <= i < j < self.labels.len() ==> self.labels[i].id != self.labels[j].id
        &&& forall|i: int| 0 <= i < self.labels.len() ==> 1 <= #[trigger] self.labels[i].id <= self.label_seq
        &&& forall|i: int, j: int|
            0 <= i < j < self.comments.len() ==> self.comments[i].id < self.comments[j].id
        &&& forall|i: int|
            0 <= i < self.comments.len() ==> 1 <= #[trigger] self.comments[i].id <= self.comment_seq
        &&& self.links.no_duplicates()
        &&& self.deps.no_duplicates()
        &&& self.members.no_duplicates()
        &&& 0 <= self.issue_seq
        &&& 0 <= self.label_seq
        &&& 0 <= self.comment_seq
    }
}

// ---------------------------------------------------------------------------
// Statuses and labels the tracker names.

/// `open`.
pub open spec fn open_status() -> Seq<char> {
    "open"@
}

/// `closed`.
pub open spec fn closed_status() -> Seq<char> {
    "closed"@
}

/// The four statuses an issue can have: open, in-progress, blocked, closed.
pub open spec fn is_status(s: Seq<char>) -> bool {
    s == "open"@ || s == "in-progress"@ || s == "blocked"@ || s == "closed"@
}

/// The label of the agent grab queue.
pub open spec fn ready_label() -> Seq<char> {
    "ready-for-agent"@
}

// ---------------------------------------------------------------------------
// Queries.

/// Whether a label in the table has this id.
pub open spec fn has_label_id(labels: Seq<LabelV>, lid: i64) -> bool {
    exists|j: int| 0 <= j < labels.len() && #[trigger] labels[j].id == lid
}

/// Whether an issue has this id.
pub open spec fn has_issue(s: StoreV, id: i64) -> bool {
    exists|i: int| 0 <= i < s.issues.len() && s.issues[i].id == id
}

/// The issue with this id (meaningful when there is one).
pub open spec fn issue_of(s: StoreV, id: i64) -> IssueV {
    s.issues[choose|i: int| 0 <= i < s.issues.len() && s.issues[i].id == id]
}

/// Selects the names of the labels attached to an issue.
pub open spec fn label_pick(s: StoreV, id: i64) -> spec_fn(LabelV) -> Option<Seq<char>> {
    |l: LabelV|
        if s.links.contains((id, l.id)) {
            Some(l.name)
        } else {
            None
        }
}

/// The names of the labels attached to an issue, in name order.
pub open spec fn label_names(s: StoreV, id: i64) -> Seq<Seq<char>> {
    s.labels.filter_map(label_pick(s, id))
}

/// Whether a label with this name is attached to the issue.
pub open spec fn has_label(s: StoreV, id: i64, name: Seq<char>) -> bool {
    label_names(s, id).contains(name)
}

/// The summary of an issue: id, title, status and label names.
pub open spec fn summary_of(s: StoreV, x: IssueV) -> SummaryV {
    SummaryV { id: x.id, title: x.title, status: x.status, labels: label_names(s, x.id) }
}

/// Whether an issue passes the filters of a listing.
pub open spec fn list_pass(
    s: StoreV,
    status: Option<Seq<char>>,
    label: Option<Seq<char>>,
    parent: Option<i64>,
    x: IssueV,
) -> bool {
    &&& (match status {
        Some(st) => x.status == st,
        None => true,
    })
    &&& (match label {
        Some(l) => has_label(s, x.id, l),
        None => true,
    })
    &&& (match parent {
        Some(p) => s.members.contains((x.id, p)),
        None => true,
    })
}

/// Selects the summaries of a listing.
pub open spec fn list_pick(
    s: StoreV,
    status: Option<Seq<char>>,
    label: Option<Seq<char>>,
    parent: Option<i64>,
) -> spec_fn(IssueV) -> Option<SummaryV> {
    |x: IssueV|
        if list_pass(s, status, label, parent, x) {
            Some(summary_of(s, x))
        } else {
            None
        }
}

/// The issues that pass the filters, in id order.
pub open spec fn list_view(
    s: StoreV,
    status: Option<Seq<char>>,
    label: Option<Seq<char>>,
    parent: Option<i64>,
) -> Seq<SummaryV> {
    s.issues.filter_map(list_pick(s, status, label, parent))
}

/// Whether `d` is an unresolved dependency of issue `id`: `id` depends on
/// it and it is not closed.
pub open spec fn is_unresolved(s: StoreV, id: i64, d: IssueV) -> bool {
    s.deps.contains((id, d.id)) && d.status != closed_status()
}

/// Whether some unresolved dependency blocks the issue.
pub open spec fn is_blocked(s: StoreV, id: i64) -> bool {
    exists|j: int| 0 <= j < s.issues.len() && is_unresolved(s, id, #[trigger] s.issues[j])
}

/// Selects the unresolved dependencies of an issue.
pub open spec fn unresolved_pick(s: StoreV, id: i64) -> spec_fn(IssueV) -> Option<DependencyV> {
    |d: IssueV|
        if is_unresolved(s, id, d) {
            Some(DependencyV { id: d.id, title: d.title, status: d.status })
        } else {
            None
        }
}

/// The unresolved dependencies of an issue, in id order.
pub open spec fn unresolved(s: StoreV, id: i64) -> Seq<DependencyV> {
    s.issues.filter_map(unresolved_pick(s, id))
}

/// Whether some issue is attached to this one.
pub open spec fn has_child(s: StoreV, id: i64) -> bool {
    exists|k: int| 0 <= k < s.members.len() && (#[trigger] s.members[k]).1 == id
}

/// Whether this issue is attached to some parent.
pub open spec fn has_parent(s: StoreV, id: i64) -> bool {
    exists|k: int| 0 <= k < s.members.len() && (#[trigger] s.members[k]).0 == id
}

/// Whether the issue carries the label, when a label is asked for.
pub open spec fn label_pass(s: StoreV, label: Option<Seq<char>>, id: i64) -> bool {
    match label {
        Some(l) => has_label(s, id, l),
        None => true,
    }
}

/// Whether an issue is on the frontier: open, not blocked, carrying the
/// label, not a parent, and attached to the map when one is asked for, else
/// attached to none.
pub open spec fn frontier_pass(
    s: StoreV,
    label: Option<Seq<char>>,
    map: Option<i64>,
    x: IssueV,
) -> bool {
    &&& x.status == open_status()
    &&& !is_blocked(s, x.id)
    &&& label_pass(s, label, x.id)
    &&& !has_child(s, x.id)
    &&& match map {
        Some(m) => s.members.contains((x.id, m)),
        None => !has_parent(s, x.id),
    }
}

/// Selects the frontier.
pub open spec fn frontier_pick(s: StoreV, label: Option<Seq<char>>, map: Option<i64>) -> spec_fn(
    IssueV,
) -> Option<SummaryV> {
    |x: IssueV|
        if frontier_pass(s, label, map, x) {
            Some(summary_of(s, x))
        } else {
            None
        }
}

/// The frontier, in id order.
pub open spec fn frontier_view(s: StoreV, label: Option<Seq<char>>, map: Option<i64>) -> Seq<
    SummaryV,
> {
    s.issues.filter_map(frontier_pick(s, label, map))
}

/// Whether an issue is listed as blocked: open, blocked, carrying the label.
pub open spec fn blocked_pass(s: StoreV, label: Option<Seq<char>>, x: IssueV) -> bool {
    x.status == open_status() && is_blocked(s, x.id) && label_pass(s, label, x.id)
}

/// Selects the blocked issues with what blocks them.
pub open spec fn blocked_pick(s: StoreV, label: Option<Seq<char>>) -> spec_fn(IssueV) -> Option<
    BlockedV,
> {
    |x: IssueV|
        if blocked_pass(s, label, x) {
            Some(BlockedV { id: x.id, title: x.title, blocked_by: unresolved(s, x.id) })
        } else {
            None
        }
}

/// The blocked issues, in id order.
pub open spec fn blocked_view(s: StoreV, label: Option<Seq<char>>) -> Seq<BlockedV> {
    s.issues.filter_map(blocked_pick(s, label))
}

/// Whether a listed issue is open.
pub open spec fn summary_is_open() -> spec_fn(SummaryV) -> bool {
    |x: SummaryV| x.status == open_status()
}

/// The agent grab queue: open issues labelled `ready-for-agent`, in id order.
pub open spec fn ready_view(s: StoreV) -> Seq<SummaryV> {
    list_view(s, None, Some(ready_label()), None).filter(summary_is_open())
}

/// Selects the comments of an issue.
pub open spec fn comment_pick(id: i64) -> spec_fn(CommentRowV) -> Option<CommentV> {
    |c: CommentRowV|
        if c.issue_id == id {
            Some(CommentV { id: c.id, body: c.body, created_at: c.created_at })
        } else {
            None
        }
}

/// The comments of an issue, in id order.
pub open spec fn comments_of(s: StoreV, id: i64) -> Seq<CommentV> {
    s.comments.filter_map(comment_pick(id))
}

/// Selects the second member of the pairs whose first member is `id`.
pub open spec fn target_pick(id: i64) -> spec_fn((i64, i64)) -> Option<i64> {
    |e: (i64, i64)|
        if e.0 == id {
            Some(e.1)
        } else {
            None
        }
}

/// Selects the first member of the pairs whose second member is `id`.
pub open spec fn source_pick(id: i64) -> spec_fn((i64, i64)) -> Option<i64> {
    |e: (i64, i64)|
        if e.1 == id {
            Some(e.0)
        } else {
            None
        }
}

/// Everything about an issue, if there is one with this id: its labels,
/// comments, the issues it depends on and that depend on it, its parents and
/// its children (edges in the order they were added).
pub open spec fn detail_view(s: StoreV, id: i64) -> Option<DetailV> {
    if has_issue(s, id) {
        Some(
            DetailV {
                issue: issue_of(s, id),
                labels: label_names(s, id),
                comments: comments_of(s, id),
                blocked_by: s.deps.filter_map(target_pick(id)),
                blocks: s.deps.filter_map(source_pick(id)),
                parents: s.members.filter_map(target_pick(id)),
                children: s.members.filter_map(source_pick(id)),
            },
        )
    } else {
        None
    }
}

// ---------------------------------------------------------------------------
// Changes.

/// Where a label with this name goes in a name-ordered table: after every
/// label whose name sorts before it.
pub open spec fn label_pos(labels: Seq<LabelV>, name: Seq<char>) -> int
    decreases labels.len(),
{
    if labels.len() > 0 && chars_lt(labels[0].name, name) {
        1 + label_pos(labels.drop_first(), name)
    } else {
        0
    }
}

/// Rewrites the issue with this id.
pub open spec fn map_issue(s: StoreV, id: i64, f: spec_fn(IssueV) -> IssueV) -> StoreV {
    StoreV {
        issues: s.issues.map_values(
            |x: IssueV|
                if x.id == id {
                    f(x)
                } else {
                    x
                },
        ),
        ..s
    }
}

/// Whether a pair differs from `p`.
pub open spec fn other_than(p: (i64, i64)) -> spec_fn((i64, i64)) -> bool {
    |q: (i64, i64)| q != p
}

/// Every pair but `p`.
pub open spec fn without(v: Seq<(i64, i64)>, p: (i64, i64)) -> Seq<(i64, i64)> {
    v.filter(other_than(p))
}

/// Whether a label has this name.
pub open spec fn label_exists(s: StoreV, name: Seq<char>) -> bool {
    exists|j: int| 0 <= j < s.labels.len() && s.labels[j].name == name
}

/// The position of the label with this name (meaningful when there is one).
pub open spec fn label_index(s: StoreV, name: Seq<char>) -> int {
    choose|j: int| 0 <= j < s.labels.len() && s.labels[j].name == name
}

/// The id of the label with this name, or the id a new label would get.
pub open spec fn label_id_for(s: StoreV, name: Seq<char>) -> i64 {
    if label_exists(s, name) {
        s.labels[label_index(s, name)].id
    } else {
        (s.label_seq + 1) as i64
    }
}

/// What one change does to the tables.
pub open spec fn apply_change(s: StoreV, c: ChangeV) -> StoreV {
    match c {
        ChangeV::InsertIssue(x) => StoreV { issues: s.issues.push(x), issue_seq: x.id, ..s },
        ChangeV::SetStatus { id, status, updated_at } => map_issue(
            s,
            id,
            |x: IssueV| IssueV { status: status, updated_at: updated_at, ..x },
        ),
        ChangeV::SetText { id, title, body, updated_at } => map_issue(
            s,
            id,
            |x: IssueV| IssueV { title: title, body: body, updated_at: updated_at, ..x },
        ),
        ChangeV::Touch { id, updated_at } => map_issue(
            s,
            id,
            |x: IssueV| IssueV { updated_at: updated_at, ..x },
        ),
        ChangeV::SetAnchors { id, opened_at, resolved_by, updated_at } => map_issue(
            s,
            id,
            |x: IssueV| IssueV { opened_at: opened_at, resolved_by: resolved_by, updated_at: updated_at, ..x },
        ),
        ChangeV::InsertLabel(l) => StoreV {
            labels: s.labels.insert(label_pos(s.labels, l.name), l),
            label_seq: l.id,
            ..s
        },
        ChangeV::InsertLink { issue_id, label_id } => StoreV {
            links: s.links.push((issue_id, label_id)),
            ..s
        },
        ChangeV::DeleteLink { issue_id, label_id } => StoreV {
            links: without(s.links, (issue_id, label_id)),
            ..s
        },
        ChangeV::InsertComment(c) => StoreV {
            comments: s.comments.push(c),
            comment_seq: c.id,
            ..s
        },
        ChangeV::InsertDependency { issue_id, depends_on } => StoreV {
            deps: s.deps.push((issue_id, depends_on)),
            ..s
        },
        ChangeV::DeleteDependency { issue_id, depends_on } => StoreV {
            deps: without(s.deps, (issue_id, depends_on)),
            ..s
        },
        ChangeV::InsertMembership { child, parent } => StoreV {
            members: s.members.push((child, parent)),
            ..s
        },
        ChangeV::DeleteMembership { child, parent } => StoreV {
            members: without(s.members, (child, parent)),
            ..s
        },
    }
}

/// What a run of changes does to the tables, first to last.
pub open spec fn apply_changes(s: StoreV, cs: Seq<ChangeV>) -> StoreV
    decreases cs.len(),
{
    if cs.len() == 0 {
        s
    } else {
        apply_changes(apply_change(s, cs[0]), cs.drop_first())
    }
}

// ---------------------------------------------------------------------------
// Lemmas.

/// In a store that keeps its invariant, an issue found at an index is the
/// issue with its id.
pub proof fn lemma_issue_at(s: StoreV, i: int)
    requires
        s.wf(),
        0 <= i < s.issues.len(),
    ensures
        has_issue(s, s.issues[i].id),
        issue_of(s, s.issues[i].id) == s.issues[i],
{
    let id = s.issues[i].id;
    let j = choose|j: int| 0 <= j < s.issues.len() && s.issues[j].id == id;
    assert(j == i);
}

// ---------------------------------------------------------------------------
// Executable helpers.

/// Whether the pair is in the table.
pub fn contains_pair(v: &Vec<(i64, i64)>, a: i64, b: i64) -> (r: bool)
    ensures
        r == v@.contains((a, b)),
{
    let mut i: usize = 0;
    while i < v.len()
        invariant
            i <= v@.len(),
            forall|j: int| 0 <= j < i ==> v@[j] != (a, b),
        decreases v.len() - i,
    {
        if v[i].0 == a && v[i].1 == b {
            assert(v@[i as int] == (a, b));
            return true;
        }
        i = i + 1;
    }
    false
}

/// Whether issue ids strictly increase and lie between 1 and `seq`.
fn issues_ordered(v: &Vec<Issue>, seq: i64) -> (r: bool)
    ensures
        r == ({
            let w = issues_view(v@);
            &&& forall|i: int, j: int| 0 <= i < j < w.len() ==> w[i].id < w[j].id
            &&& forall|i: int| 0 <= i < w.len() ==> 1 <= #[trigger] w[i].id <= seq
        }),
{
    let ghost w = issues_view(v@);
    let mut i: usize = 0;
    while i < v.len()
        invariant
            i <= v@.len(),
            w == issues_view(v@),
            forall|a: int, b: int| 0 <= a < b < i ==> w[a].id < w[b].id,
            forall|a: int| 0 <= a < i ==> 1 <= #[trigger] w[a].id <= seq,
        decreases v.len() - i,
    {
        if v[i].id < 1 || v[i].id > seq {
            assert(!(1 <= w[i as int].id <= seq));
            return false;
        }
        if i > 0 && v[i - 1].id >= v[i].id {
            assert(w[i - 1].id >= w[i as int].id);
            return false;
        }
        i = i + 1;
    }
    true
}

/// Whether comment ids strictly increase and lie between 1 and `seq`.
fn comments_ordered(v: &Vec<CommentRow>, seq: i64) -> (r: bool)
    ensures
        r == ({
            let w = comments_view(v@);
            &&& forall|i: int, j: int| 0 <= i < j < w.len() ==> w[i].id < w[j].id
            &&& forall|i: int| 0 <= i < w.len() ==> 1 <= #[trigger] w[i].id <= seq
        }),
{
    let ghost w = comments_view(v@);
    let mut i: usize = 0;
    while i < v.len()
        invariant
            i <= v@.len(),
            w == comments_view(v@),
            forall|a: int, b: int| 0 <= a < b < i ==> w[a].id < w[b].id,
            forall|a: int| 0 <= a < i ==> 1 <= #[trigger] w[a].id <= seq,
        decreases v.len() - i,
    {
        if v[i].id < 1 || v[i].id > seq {
            assert(!(1 <= w[i as int].id <= seq));
            return false;
        }
        if i > 0 && v[i - 1].id >= v[i].id {
            assert(w[i - 1].id >= w[i as int].id);
            return false;
        }
        assert(forall|a: int| 0 <= a < i ==> w[a].id < w[i as int].id) by {
            assert forall|a: int| 0 <= a < i implies w[a].id < w[i as int].id by {
                if a < i - 1 {
                    assert(w[a].id < w[i - 1].id);
                }
            }
        }
        i = i + 1;
    }
    true
}

/// Whether label names strictly increase and the ids are distinct and lie
/// between 1 and `seq`.
fn labels_ordered(v: &Vec<Label>, seq: i64) -> (r: bool)
    ensures
        r == ({
            let w = labels_view(v@);
            &&& forall|i: int, j: int| 0 <= i < j < w.len() ==> chars_lt(w[i].name, w[j].name)
            &&& forall|i: int, j: int| 0 <= i < j < w.len() ==> w[i].id != w[j].id
            &&& forall|i: int| 0 <= i < w.len() ==> 1 <= #[trigger] w[i].id <= seq
        }),
{
    let ghost w = labels_view(v@);
    let mut i: usize = 0;
    while i < v.len()
        invariant
            i <= v@.len(),
            w == labels_view(v@),
            forall|a: int, b: int| 0 <= a < b < i ==> chars_lt(w[a].name, w[b].name),
            forall|a: int, b: int| 0 <= a < b < i ==> w[a].id != w[b].id,
            forall|a: int| 0 <= a < i ==> 1 <= #[trigger] w[a].id <= seq,
        decreases v.len() - i,
    {
        if v[i].id < 1 || v[i].id > seq {
            assert(!(1 <= w[i as int].id <= seq));
            return false;
        }
        if i > 0 && !crate::text::str_lt(&v[i - 1].name, &v[i].name) {
            assert(!chars_lt(w[i - 1].name, w[i as int].name));
            return false;
        }
        proof {
            assert forall|a: int| 0 <= a < i implies chars_lt(w[a].name, #[trigger] w[i as int].name) by {
                if a < i - 1 {
                    lemma_chars_lt_transitive(w[a].name, w[i - 1].name, w[i as int].name);
                }
            }
        }
        let mut k: usize = 0;
        while k < i
            invariant
                k <= i < v@.len(),
                w == labels_view(v@),
                forall|a: int| 0 <= a < k ==> w[a].id != w[i as int].id,
            decreases i - k,
        {
            if v[k].id == v[i].id {
                assert(w[k as int].id == w[i as int].id);
                return false;
            }
            k = k + 1;
        }
        i = i + 1;
    }
    true
}

/// Whether the first member of each pair, and the second too when `both`,
/// lies between 1 and `seq`.
fn pairs_within(v: &Vec<(i64, i64)>, seq: i64, both: bool) -> (r: bool)
    ensures
        r == forall|k: int|
            #![trigger v@[k]]
            0 <= k < v@.len() ==> 1 <= v@[k].0 <= seq && (both ==> 1 <= v@[k].1 <= seq),
{
    let mut i: usize = 0;
    while i < v.len()
        invariant
            i <= v@.len(),
            forall|k: int|
                #![trigger v@[k]]
                0 <= k < i ==> 1 <= v@[k].0 <= seq && (both ==> 1 <= v@[k].1 <= seq),
        decreases v.len() - i,
    {
        let q = v[i];
        if q.0 < 1 || q.0 > seq || (both && (q.1 < 1 || q.1 > seq)) {
            return false;
        }
        i = i + 1;
    }
    true
}

/// Whether each comment belongs to an issue id between 1 and `seq`.
fn comments_within(v: &Vec<CommentRow>, seq: i64) -> (r: bool)
    ensures
        r == forall|k: int|
            0 <= k < v@.len() ==> 1 <= #[trigger] comments_view(v@)[k].issue_id <= seq,
{
    let ghost w = comments_view(v@);
    let mut i: usize = 0;
    while i < v.len()
        invariant
            i <= v@.len(),
            w == comments_view(v@),
            forall|k: int| 0 <= k < i ==> 1 <= #[trigger] w[k].issue_id <= seq,
        decreases v.len() - i,
    {
        if v[i].issue_id < 1 || v[i].issue_id > seq {
            assert(!(1 <= w[i as int].issue_id <= seq));
            return false;
        }
        i = i + 1;
    }
    true
}

/// Whether the second member of each link is the id of one of the labels.
fn links_name_labels(links: &Vec<(i64, i64)>, labels: &Vec<Label>) -> (r: bool)
    ensures
        r == forall|k: int|
            #![trigger links@[k]]
            0 <= k < links@.len() ==> has_label_id(labels_view(labels@), links@[k].1),
{
    let ghost w = labels_view(labels@);
    let mut i: usize = 0;
    while i < links.len()
        invariant
            i <= links@.len(),
            w == labels_view(labels@),
            forall|k: int| #![trigger links@[k]] 0 <= k < i ==> has_label_id(w, links@[k].1),
        decreases links.len() - i,
    {
        let lid = links[i].1;
        let mut j: usize = 0;
        let mut found = false;
        while j < labels.len()
            invariant
                j <= labels@.len(),
                w == labels_view(labels@),
                lid == links@[i as int].1,
                found ==> exists|m: int| 0 <= m < labels@.len() && #[trigger] w[m].id == lid,
                !found ==> forall|m: int| 0 <= m < j ==> #[trigger] w[m].id != lid,
            decreases labels.len() - j,
        {
            if labels[j].id == lid {
                assert(w[j as int].id == lid);
                found = true;
            }
            j = j + 1;
        }
        if !found {
            assert(!has_label_id(w, links@[i as int].1));
            return false;
        }
        i = i + 1;
    }
    true
}

/// Whether no pair occurs twice.
fn distinct_pairs(v: &Vec<(i64, i64)>) -> (r: bool)
    ensures
        r == v@.no_duplicates(),
{
    let mut i: usize = 0;
    while i < v.len()
        invariant
            i <= v@.len(),
            forall|a: int, b: int| 0 <= a < b < i ==> v@[a] != v@[b],
        decreases v.len() - i,
    {
        let mut k: usize = 0;
        while k < i
            invariant
                k <= i < v@.len(),
                forall|a: int| 0 <= a < k ==> v@[a] != v@[i as int],
            decreases i - k,
        {
            if v[k].0 == v[i].0 && v[k].1 == v[i].1 {
                assert(v@[k as int] == v@[i as int]);
                return false;
            }
            k = k + 1;
        }
        i = i + 1;
    }
    true
}

impl Store {
    /// The position of the issue with this id, if there is one.
    pub fn find_issue(&self, id: i64) -> (r: Option<usize>)
        requires
            self.wf(),
        ensures
            match r {
                Some(i) => {
                    &&& i < self@.issues.len()
                    &&& self@.issues[i as int].id == id
                    &&& has_issue(self@, id)
                    &&& issue_of(self@, id) == self@.issues[i as int]
                },
                None => !has_issue(self@, id),
            },
    {
        let mut i: usize = 0;
        while i < self.issues.len()
            invariant
                self.wf(),
                i <= self@.issues.len(),
                self.issues@.len() == self@.issues.len(),
                forall|j: int| 0 <= j < i ==> self@.issues[j].id != id,
            decreases self.issues.len() - i,
        {
            if self.issues[i].id == id {
                proof {
                    lemma_issue_at(self@, i as int);
                }
                return Some(i);
            }
            i = i + 1;
        }
        None
    }

    /// An empty store.
    pub fn new() -> (r: Store)
        ensures
            r.wf(),
            r@.issues.len() == 0,
            r@.labels.len() == 0,
            r@.links.len() == 0,
            r@.comments.len() == 0,
            r@.deps.len() == 0,
            r@.members.len() == 0,
            r@.issue_seq == 0,
            r@.label_seq == 0,
            r@.comment_seq == 0,
            r.pending().len() == 0,
    {
        Store {
            issues: Vec::new(),
            labels: Vec::new(),
            links: Vec::new(),
            comments: Vec::new(),
            deps: Vec::new(),
            members: Vec::new(),
            issue_seq: 0,
            label_seq: 0,
            comment_seq: 0,
            changes: Vec::new(),
        }
    }

    /// A store over rows read back from storage, when they keep the
    /// invariant; `Corrupt` otherwise.
    pub fn from_tables(
        issues: Vec<Issue>,
        labels: Vec<Label>,
        links: Vec<(i64, i64)>,
        comments: Vec<CommentRow>,
        deps: Vec<(i64, i64)>,
        members: Vec<(i64, i64)>,
        issue_seq: i64,
        label_seq: i64,
        comment_seq: i64,
    ) -> (r: Result<Store, DbError>)
        ensures
            ({
                let v = StoreV {
                    issues: issues_view(issues@),
                    labels: labels_view(labels@),
                    links: links@,
                    comments: comments_view(comments@),
                    deps: deps@,
                    members: members@,
                    issue_seq,
                    label_seq,
                    comment_seq,
                };
                match r {
                    Ok(st) => v.wf() && st@ == v && st.pending().len() == 0,
                    Err(e) => !v.wf() && e is Corrupt,
                }
            }),
    {
        let store = Store {
            issues,
            labels,
            links,
            comments,
            deps,
            members,
            issue_seq,
            label_seq,
            comment_seq,
            changes: Vec::new(),
        };
        if issue_seq < 0 || label_seq < 0 || comment_seq < 0 {
            return Err(DbError::Corrupt);
        }
        let ok = issues_ordered(&store.issues, issue_seq) && comments_ordered(&store.comments, comment_seq)
            && labels_ordered(&store.labels, label_seq) && distinct_pairs(&store.links)
            && distinct_pairs(&store.deps) && distinct_pairs(&store.members);
        let r1 = pairs_within(&store.links, issue_seq, false);
        let r2 = comments_within(&store.comments, issue_seq);
        let r3 = pairs_within(&store.deps, issue_seq, true);
        let r4 = pairs_within(&store.members, issue_seq, true);
        let r5 = links_name_labels(&store.links, &store.labels);
        let refs = r1 && r2 && r3 && r4 && r5;
        assert(ok == store@.tables_ordered());
        assert(refs == store@.rows_refer_to_issues());
        let ok = ok && refs;
        if !ok {
            return Err(DbError::Corrupt);
        }
        proof {
            assert(store.pending() =~= Seq::<ChangeV>::empty());
        }
        Ok(store)
    }

    /// Hands over the changes made since the last call, oldest first.
    pub fn take_changes(&mut self) -> (r: Vec<Change>)
        ensures
            r@.map_values(|c: Change| c@) == old(self).pending(),
            final(self)@ == old(self)@,
            final(self).pending().len() == 0,
    {
        let mut out = Vec::new();
        std::mem::swap(&mut out, &mut self.changes);
        out
    }
}

} // verus!
