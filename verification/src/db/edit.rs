//! The edits of the tracker: each checks its request, changes the tables, and
//! records the row-level changes it made so that the caller can persist them.

use vstd::prelude::*;

use super::store::{
    apply_change, apply_changes, closed_status, contains_pair, has_issue, has_label_id, is_status, issue_of,
    label_exists, label_id_for, label_index, label_pos, lemma_issue_at, map_issue, open_status,
    other_than, without, Store, StoreV,
};
use super::{AnchorEdit, AnchorEditV, Label, LabelV, edited_anchor};
use crate::text::{chars_lt, lemma_chars_lt_irreflexive, lemma_chars_lt_total, lemma_chars_lt_transitive, push_char, str_lt};
use super::{Change, ChangeV, Comment, CommentRow, CommentRowV, CommentV, DbError, DbErrorV, Issue, IssueV};
use crate::render::is_digit;
use crate::text::{opt_clone, opt_view, str_eq, trim, trim_str};

verus! {

/// The store and its pending changes are as they were.
pub open spec fn unchanged(old: Store, new: Store) -> bool {
    new@ == old@ && new.pending() == old.pending()
}

/// The edit made the changes `cs`: they follow the pending ones, and the
/// tables are what applying them to the old tables gives.
pub open spec fn committed(old: Store, new: Store, cs: Seq<ChangeV>) -> bool {
    new.pending() == old.pending() + cs && new@ == apply_changes(old@, cs)
}

/// Whether `t` reads as a UTC time to the second in the form chrono's
/// `to_rfc3339_opts(SecondsFormat::Secs, true)` writes: a year of four digits
/// (a sign and at least four digits outside years 0 to 9999), then
/// `-MM-DDTHH:MM:SS` and `Z`.
pub open spec fn utc_seconds_text(t: Seq<char>) -> bool {
    let n = t.len() as int;
    let y = t.take(n - 16);
    &&& n >= 20
    &&& t[n - 1] == 'Z'
    &&& t[n - 4] == ':'
    &&& t[n - 7] == ':'
    &&& t[n - 10] == 'T'
    &&& t[n - 13] == '-'
    &&& t[n - 16] == '-'
    &&& is_digit(t[n - 2]) && is_digit(t[n - 3]) && is_digit(t[n - 5]) && is_digit(t[n - 6])
    &&& is_digit(t[n - 8]) && is_digit(t[n - 9]) && is_digit(t[n - 11]) && is_digit(t[n - 12])
    &&& is_digit(t[n - 14]) && is_digit(t[n - 15])
    &&& {
        ||| (y.len() == 4 && forall|i: int| 0 <= i < 4 ==> is_digit(#[trigger] y[i]))
        ||| (y.len() >= 5 && (y[0] == '+' || y[0] == '-') && forall|i: int|
            1 <= i < y.len() ==> is_digit(#[trigger] y[i]))
    }
}

/// How long after the Unix epoch the system clock reads, in whole seconds
/// and the nanoseconds beyond them: a call of `SystemTime::elapsed` on
/// `UNIX_EPOCH`, which gives an error when the clock reads earlier. Claimed:
/// the nanoseconds are below one second, as `Duration::subsec_nanos` documents.
#[verifier::external_body]
fn since_epoch() -> (r: Option<(u64, u32)>)
    ensures
        r matches Some(p) ==> p.1 < 1_000_000_000,
{
    match std::time::UNIX_EPOCH.elapsed() {
        Ok(d) => Some((d.as_secs(), d.subsec_nanos())),
        Err(_) => None,
    }
}

/// The text chrono writes for the UTC time `secs` seconds and `nanos`
/// nanoseconds after the Unix epoch: `DateTime::from_timestamp` (nothing
/// when the time is out of its range) formatted by
/// `to_rfc3339_opts(SecondsFormat::Secs, true)`.
pub uninterp spec fn utc_text_of(secs: i64, nanos: u32) -> Option<Seq<char>>;

/// Calls `chrono::DateTime::from_timestamp` and formats what it gives with
/// `to_rfc3339_opts(SecondsFormat::Secs, true)`. Claimed: the result is
/// [`utc_text_of`] of the arguments, and every text has the form of
/// [`utc_seconds_text`], as chrono's `write_rfc3339` writes a UTC time with
/// `Z`. Neither call panics: `from_timestamp` answers out-of-range times with
/// `None`, and the writer only fails on fields of 100 or more.
#[verifier::external_body]
fn utc_text(secs: i64, nanos: u32) -> (r: Option<String>)
    ensures
        opt_view(r) == utc_text_of(secs, nanos),
        r matches Some(t) ==> utc_seconds_text(t@),
{
    match chrono::DateTime::from_timestamp(secs, nanos) {
        Some(t) => Some(t.to_rfc3339_opts(chrono::SecondsFormat::Secs, true)),
        None => None,
    }
}

/// Reads the clock as UTC text to the second; nothing when the clock reads
/// before the Unix epoch or past what chrono can represent.
fn now_rfc3339() -> (r: Option<String>)
    ensures
        r matches Some(t) ==> utc_seconds_text(t@),
{
    match since_epoch() {
        None => None,
        Some((secs, nanos)) => {
            if secs > 9_223_372_036_854_775_807u64 {
                None
            } else {
                utc_text(secs as i64, nanos)
            }
        },
    }
}

/// Applying a run of one change applies that change.
pub proof fn lemma_apply_one(s: StoreV, c: ChangeV)
    ensures
        apply_changes(s, seq![c]) == apply_change(s, c),
{
    reveal_with_fuel(apply_changes, 2);
    assert(seq![c].drop_first() =~= Seq::<ChangeV>::empty());
}

/// Applying a run of two changes applies one after the other.
pub proof fn lemma_apply_two(s: StoreV, a: ChangeV, b: ChangeV)
    ensures
        apply_changes(s, seq![a, b]) == apply_change(apply_change(s, a), b),
{
    assert(seq![a, b].drop_first() =~= seq![b]);
    lemma_apply_one(apply_change(s, a), b);
}

/// Rewriting the issue at position `i` through `map_issue` updates only that position.
pub proof fn lemma_map_issue_at(s: StoreV, i: int, f: spec_fn(IssueV) -> IssueV)
    requires
        s.wf(),
        0 <= i < s.issues.len(),
    ensures
        map_issue(s, s.issues[i].id, f) == (StoreV { issues: s.issues.update(i, f(s.issues[i])), ..s }),
{
    let m = map_issue(s, s.issues[i].id, f);
    assert forall|j: int| 0 <= j < s.issues.len() implies m.issues[j] == s.issues.update(i, f(s.issues[i]))[j] by {
        if j != i {
            assert(s.issues[j].id != s.issues[i].id);
        }
    }
    assert(m.issues =~= s.issues.update(i, f(s.issues[i])));
}

// ---------------------------------------------------------------------------
// Creating an issue.

/// Why creating an issue with this title is refused, if it is.
pub open spec fn create_error(s: StoreV, title: Seq<char>) -> Option<DbErrorV> {
    if trim(title).len() == 0 {
        Some(DbErrorV::EmptyTitle)
    } else if s.issue_seq == i64::MAX {
        Some(DbErrorV::Full)
    } else {
        None
    }
}

/// The issue that creating makes: the next id, the trimmed title, the body,
/// status open, created and updated now, opened at the given commit and not
/// resolved by any.
pub open spec fn created_issue(
    s: StoreV,
    title: Seq<char>,
    body: Seq<char>,
    opened_at: Option<Seq<char>>,
    now: Seq<char>,
) -> IssueV {
    IssueV {
        id: (s.issue_seq + 1) as i64,
        title: trim(title),
        body: body,
        status: open_status(),
        created_at: now,
        updated_at: now,
        opened_at: opened_at,
        resolved_by: None,
    }
}

/// An owned copy of an optional string.
pub fn opt_owned(o: Option<&str>) -> (r: Option<String>)
    ensures
        opt_view(r) == opt_text(o),
{
    match o {
        Some(t) => Some(t.to_owned()),
        None => None,
    }
}

/// Creates an issue at time `now`, opened at the given commit.
pub fn create_issue_at(
    store: &mut Store,
    title: &str,
    body: &str,
    opened_at: Option<&str>,
    now: &str,
) -> (r: Result<Issue, DbError>)
    requires
        old(store).wf(),
    ensures
        final(store).wf(),
        match r {
            Ok(issue) => {
                &&& create_error(old(store)@, title@) is None
                &&& issue@ == created_issue(old(store)@, title@, body@, opt_text(opened_at), now@)
                &&& committed(*old(store), *final(store), seq![ChangeV::InsertIssue(issue@)])
            },
            Err(e) => create_error(old(store)@, title@) == Some(e@) && unchanged(*old(store), *final(store)),
        },
{
    let t = trim_str(title);
    if t.is_empty() {
        return Err(DbError::EmptyTitle);
    }
    if store.issue_seq == i64::MAX {
        return Err(DbError::Full);
    }
    let id = store.issue_seq + 1;
    let issue = Issue {
        id,
        title: t.to_owned(),
        body: body.to_owned(),
        status: "open".to_owned(),
        created_at: now.to_owned(),
        updated_at: now.to_owned(),
        opened_at: opt_owned(opened_at),
        resolved_by: None,
    };
    let ghost old_store = *store;
    store.issue_seq = id;
    store.issues.push(issue.duplicate());
    store.changes.push(Change::InsertIssue(issue.duplicate()));
    proof {
        lemma_apply_one(old_store@, ChangeV::InsertIssue(issue@));
        assert(store@.issues =~= old_store@.issues.push(issue@));
        assert(store.pending() =~= old_store.pending() + seq![ChangeV::InsertIssue(issue@)]);
    }
    Ok(issue)
}

/// Creates an issue now: the title trimmed, status open, created and updated
/// at the time read from the clock, opened at the given commit.
pub fn create_issue(store: &mut Store, title: &str, body: &str, opened_at: Option<&str>) -> (r: Result<Issue, DbError>)
    requires
        old(store).wf(),
    ensures
        final(store).wf(),
        match r {
            Ok(issue) => {
                &&& utc_seconds_text(issue.created_at@)
                &&& create_error(old(store)@, title@) is None
                &&& issue@ == created_issue(old(store)@, title@, body@, opt_text(opened_at), issue.created_at@)
                &&& committed(*old(store), *final(store), seq![ChangeV::InsertIssue(issue@)])
            },
            Err(e) => unchanged(*old(store), *final(store)) && match create_error(old(store)@, title@) {
                Some(x) => e@ == x,
                None => e@ == DbErrorV::Clock,
            },
        },
{
    if trim_str(title).is_empty() {
        return Err(DbError::EmptyTitle);
    }
    if store.issue_seq == i64::MAX {
        return Err(DbError::Full);
    }
    let now = match now_rfc3339() {
        Some(t) => t,
        None => return Err(DbError::Clock),
    };
    create_issue_at(store, title, body, opened_at, &now)
}

// ---------------------------------------------------------------------------
// Setting the status.

/// Whether `s` is one of the four statuses.
pub fn known_status(s: &str) -> (r: bool)
    ensures
        r == is_status(s@),
{
    str_eq(s, "open") || str_eq(s, "in-progress") || str_eq(s, "blocked") || str_eq(s, "closed")
}

/// Why setting this status is refused, if it is: an unknown status first,
/// then a missing issue.
pub open spec fn status_error(s: StoreV, id: i64, status: Seq<char>) -> Option<DbErrorV> {
    if !is_status(status) {
        Some(DbErrorV::UnknownStatus(status))
    } else if !has_issue(s, id) {
        Some(DbErrorV::NotFound(id))
    } else {
        None
    }
}

/// Sets the status of an issue at time `now`.
pub fn update_status_at(store: &mut Store, id: i64, status: &str, now: &str) -> (r: Result<Issue, DbError>)
    requires
        old(store).wf(),
    ensures
        final(store).wf(),
        match r {
            Ok(issue) => {
                &&& status_error(old(store)@, id, status@) is None
                &&& issue@ == (IssueV { status: status@, updated_at: now@, ..issue_of(old(store)@, id) })
                &&& committed(*old(store), *final(store), seq![
                    ChangeV::SetStatus { id, status: status@, updated_at: now@ },
                ])
            },
            Err(e) => status_error(old(store)@, id, status@) == Some(e@) && unchanged(*old(store), *final(store)),
        },
{
    if !known_status(status) {
        return Err(DbError::UnknownStatus(status.to_owned()));
    }
    let i = match store.find_issue(id) {
        Some(i) => i,
        None => return Err(DbError::NotFound(id)),
    };
    let old_issue = &store.issues[i];
    let issue = Issue {
        id,
        title: old_issue.title.clone(),
        body: old_issue.body.clone(),
        status: status.to_owned(),
        created_at: old_issue.created_at.clone(),
        updated_at: now.to_owned(),
        opened_at: opt_clone(&old_issue.opened_at),
        resolved_by: opt_clone(&old_issue.resolved_by),
    };
    let ghost old_store = *store;
    let ghost c = ChangeV::SetStatus { id, status: status@, updated_at: now@ };
    store.issues.set(i, issue.duplicate());
    store.changes.push(Change::SetStatus { id, status: status.to_owned(), updated_at: now.to_owned() });
    proof {
        lemma_apply_one(old_store@, c);
        lemma_map_issue_at(old_store@, i as int, |x: IssueV| IssueV { status: status@, updated_at: now@, ..x });
        assert(store@.issues =~= old_store@.issues.update(i as int, issue@));
        assert(store.pending() =~= old_store.pending() + seq![c]);
    }
    Ok(issue)
}

/// Sets the status of an issue now.
pub fn update_status(store: &mut Store, id: i64, status: &str) -> (r: Result<Issue, DbError>)
    requires
        old(store).wf(),
    ensures
        final(store).wf(),
        match r {
            Ok(issue) => {
                &&& utc_seconds_text(issue.updated_at@)
                &&& status_error(old(store)@, id, status@) is None
                &&& issue@ == (IssueV { status: status@, updated_at: issue.updated_at@, ..issue_of(old(store)@, id) })
                &&& committed(*old(store), *final(store), seq![
                    ChangeV::SetStatus { id, status: status@, updated_at: issue.updated_at@ },
                ])
            },
            Err(e) => unchanged(*old(store), *final(store)) && match status_error(old(store)@, id, status@) {
                Some(x) => e@ == x,
                None => e@ == DbErrorV::Clock,
            },
        },
{
    if !known_status(status) {
        return Err(DbError::UnknownStatus(status.to_owned()));
    }
    if store.find_issue(id).is_none() {
        return Err(DbError::NotFound(id));
    }
    let now = match now_rfc3339() {
        Some(t) => t,
        None => return Err(DbError::Clock),
    };
    update_status_at(store, id, status, &now)
}

/// The change that records an issue's anchors.
pub open spec fn anchors_change(x: IssueV) -> ChangeV {
    ChangeV::SetAnchors { id: x.id, opened_at: x.opened_at, resolved_by: x.resolved_by, updated_at: x.updated_at }
}

/// Edits the commit anchors of an issue at time `now`.
pub fn set_anchors_at(store: &mut Store, id: i64, opened_at: AnchorEdit, resolved_by: AnchorEdit, now: &str) -> (r: Result<Issue, DbError>)
    requires
        old(store).wf(),
    ensures
        final(store).wf(),
        match r {
            Ok(issue) => {
                &&& has_issue(old(store)@, id)
                &&& issue@ == (IssueV {
                    opened_at: edited_anchor(issue_of(old(store)@, id).opened_at, opened_at@),
                    resolved_by: edited_anchor(issue_of(old(store)@, id).resolved_by, resolved_by@),
                    updated_at: now@,
                    ..issue_of(old(store)@, id)
                })
                &&& committed(*old(store), *final(store), seq![anchors_change(issue@)])
            },
            Err(e) => e@ == DbErrorV::NotFound(id) && !has_issue(old(store)@, id) && unchanged(*old(store), *final(store)),
        },
{
    let i = match store.find_issue(id) {
        Some(i) => i,
        None => return Err(DbError::NotFound(id)),
    };
    let old_issue = &store.issues[i];
    let new_opened = match opened_at {
        AnchorEdit::Keep => opt_clone(&old_issue.opened_at),
        AnchorEdit::Replace(h) => Some(h),
        AnchorEdit::Clear => None,
    };
    let new_resolved = match resolved_by {
        AnchorEdit::Keep => opt_clone(&old_issue.resolved_by),
        AnchorEdit::Replace(h) => Some(h),
        AnchorEdit::Clear => None,
    };
    let issue = Issue {
        id,
        title: old_issue.title.clone(),
        body: old_issue.body.clone(),
        status: old_issue.status.clone(),
        created_at: old_issue.created_at.clone(),
        updated_at: now.to_owned(),
        opened_at: new_opened,
        resolved_by: new_resolved,
    };
    let ghost old_store = *store;
    let ghost c = anchors_change(issue@);
    proof {
        lemma_issue_at(old_store@, i as int);
    }
    store.issues.set(i, issue.duplicate());
    store.changes.push(Change::SetAnchors {
        id,
        opened_at: opt_clone(&issue.opened_at),
        resolved_by: opt_clone(&issue.resolved_by),
        updated_at: now.to_owned(),
    });
    proof {
        lemma_apply_one(old_store@, c);
        lemma_map_issue_at(
            old_store@,
            i as int,
            |x: IssueV| IssueV { opened_at: issue@.opened_at, resolved_by: issue@.resolved_by, updated_at: now@, ..x },
        );
        assert(store@.issues =~= old_store@.issues.update(i as int, issue@));
        assert(store.pending() =~= old_store.pending() + seq![c]);
    }
    Ok(issue)
}

/// Edits the commit anchors of an issue now.
pub fn set_anchors(store: &mut Store, id: i64, opened_at: AnchorEdit, resolved_by: AnchorEdit) -> (r: Result<Issue, DbError>)
    requires
        old(store).wf(),
    ensures
        final(store).wf(),
        match r {
            Ok(issue) => {
                &&& utc_seconds_text(issue.updated_at@)
                &&& has_issue(old(store)@, id)
                &&& issue@ == (IssueV {
                    opened_at: edited_anchor(issue_of(old(store)@, id).opened_at, opened_at@),
                    resolved_by: edited_anchor(issue_of(old(store)@, id).resolved_by, resolved_by@),
                    updated_at: issue.updated_at@,
                    ..issue_of(old(store)@, id)
                })
                &&& committed(*old(store), *final(store), seq![anchors_change(issue@)])
            },
            Err(e) => unchanged(*old(store), *final(store)) && if has_issue(old(store)@, id) {
                e@ == DbErrorV::Clock
            } else {
                e@ == DbErrorV::NotFound(id)
            },
        },
{
    if store.find_issue(id).is_none() {
        return Err(DbError::NotFound(id));
    }
    let now = match now_rfc3339() {
        Some(t) => t,
        None => return Err(DbError::Clock),
    };
    set_anchors_at(store, id, opened_at, resolved_by, &now)
}

/// The issue once closed at time `now`: status `closed`, resolved by the
/// given commit when there is one.
pub open spec fn closed_issue(x: IssueV, resolved_by: Option<Seq<char>>, now: Seq<char>) -> IssueV {
    IssueV {
        status: closed_status(),
        updated_at: now,
        resolved_by: match resolved_by {
            Some(h) => Some(h),
            None => x.resolved_by,
        },
        ..x
    }
}

/// The changes of closing: the status, then the resolving commit when one is
/// given.
pub open spec fn close_changes(x: IssueV, resolved_by: Option<Seq<char>>, now: Seq<char>) -> Seq<ChangeV> {
    seq![ChangeV::SetStatus { id: x.id, status: closed_status(), updated_at: now }] + match resolved_by {
        Some(h) => seq![anchors_change(closed_issue(x, resolved_by, now))],
        None => Seq::empty(),
    }
}

/// Closes an issue at time `now`: sets its status to `closed`, and records
/// the commit that resolved it when one is given.
pub fn close_issue_at(store: &mut Store, id: i64, resolved_by: Option<&str>, now: &str) -> (r: Result<Issue, DbError>)
    requires
        old(store).wf(),
    ensures
        final(store).wf(),
        match r {
            Ok(issue) => {
                &&& has_issue(old(store)@, id)
                &&& issue@ == closed_issue(issue_of(old(store)@, id), opt_text(resolved_by), now@)
                &&& committed(*old(store), *final(store), close_changes(issue_of(old(store)@, id), opt_text(resolved_by), now@))
            },
            Err(e) => e@ == DbErrorV::NotFound(id) && !has_issue(old(store)@, id) && unchanged(*old(store), *final(store)),
        },
{
    proof {
        reveal_strlit("closed");
        reveal_strlit("open");
        reveal_strlit("in-progress");
        reveal_strlit("blocked");
    }
    let ghost s0 = *store;
    let closed = update_status_at(store, id, "closed", now);
    match closed {
        Err(e) => Err(e),
        Ok(issue) => match resolved_by {
            None => {
                proof {
                    assert(close_changes(issue_of(s0@, id), opt_text(resolved_by), now@) =~= seq![
                        ChangeV::SetStatus { id, status: closed_status(), updated_at: now@ },
                    ]);
                }
                Ok(issue)
            },
            Some(h) => {
                let ghost s1 = *store;
                let ghost x = issue_of(s0@, id);
                proof {
                    let k = choose|k: int| 0 <= k < s0@.issues.len() && s0@.issues[k].id == id;
                    lemma_issue_at(s0@, k);
                    lemma_map_issue_at(s0@, k, |y: IssueV| IssueV { status: closed_status(), updated_at: now@, ..y });
                    lemma_apply_one(s0@, ChangeV::SetStatus { id, status: closed_status(), updated_at: now@ });
                    lemma_issue_at(s1@, k);
                }
                let r = set_anchors_at(store, id, AnchorEdit::Keep, AnchorEdit::Replace(h.to_owned()), now);
                match r {
                    Ok(done) => {
                        proof {
                            let c1 = ChangeV::SetStatus { id, status: closed_status(), updated_at: now@ };
                            let c2 = anchors_change(done@);
                            lemma_apply_two(s0@, c1, c2);
                            lemma_apply_one(s0@, c1);
                            lemma_apply_one(s1@, c2);
                            assert(done@ == closed_issue(x, opt_text(resolved_by), now@));
                            assert(close_changes(x, opt_text(resolved_by), now@) =~= seq![c1, c2]);
                            assert(store.pending() =~= s0.pending() + seq![c1, c2]);
                        }
                        Ok(done)
                    },
                    Err(e) => Err(e),
                }
            },
        },
    }
}

/// Closes an issue now, recording the commit that resolved it when one is
/// given.
pub fn close_issue(store: &mut Store, id: i64, resolved_by: Option<&str>) -> (r: Result<Issue, DbError>)
    requires
        old(store).wf(),
    ensures
        final(store).wf(),
        match r {
            Ok(issue) => {
                &&& utc_seconds_text(issue.updated_at@)
                &&& has_issue(old(store)@, id)
                &&& issue@ == closed_issue(issue_of(old(store)@, id), opt_text(resolved_by), issue.updated_at@)
                &&& committed(*old(store), *final(store), close_changes(issue_of(old(store)@, id), opt_text(resolved_by), issue.updated_at@))
            },
            Err(e) => unchanged(*old(store), *final(store)) && if has_issue(old(store)@, id) {
                e@ == DbErrorV::Clock
            } else {
                e@ == DbErrorV::NotFound(id)
            },
        },
{
    if store.find_issue(id).is_none() {
        return Err(DbError::NotFound(id));
    }
    let now = match now_rfc3339() {
        Some(t) => t,
        None => return Err(DbError::Clock),
    };
    close_issue_at(store, id, resolved_by, &now)
}

// ---------------------------------------------------------------------------
// Comments.

/// Why commenting on this issue is refused, if it is.
pub open spec fn comment_error(s: StoreV, id: i64) -> Option<DbErrorV> {
    if !has_issue(s, id) {
        Some(DbErrorV::NotFound(id))
    } else if s.comment_seq == i64::MAX {
        Some(DbErrorV::Full)
    } else {
        None
    }
}

/// Adds a comment to an issue at time `now`, and marks the issue updated then.
pub fn add_comment_at(store: &mut Store, id: i64, body: &str, now: &str) -> (r: Result<Comment, DbError>)
    requires
        old(store).wf(),
    ensures
        final(store).wf(),
        match r {
            Ok(c) => {
                &&& comment_error(old(store)@, id) is None
                &&& c@ == (CommentV { id: (old(store)@.comment_seq + 1) as i64, body: body@, created_at: now@ })
                &&& committed(*old(store), *final(store), seq![
                    ChangeV::InsertComment(CommentRowV { id: c.id, issue_id: id, body: body@, created_at: now@ }),
                    ChangeV::Touch { id, updated_at: now@ },
                ])
            },
            Err(e) => comment_error(old(store)@, id) == Some(e@) && unchanged(*old(store), *final(store)),
        },
{
    let i = match store.find_issue(id) {
        Some(i) => i,
        None => return Err(DbError::NotFound(id)),
    };
    if store.comment_seq == i64::MAX {
        return Err(DbError::Full);
    }
    let cid = store.comment_seq + 1;
    let row = CommentRow { id: cid, issue_id: id, body: body.to_owned(), created_at: now.to_owned() };
    let old_issue = &store.issues[i];
    let touched = Issue {
        id,
        title: old_issue.title.clone(),
        body: old_issue.body.clone(),
        status: old_issue.status.clone(),
        created_at: old_issue.created_at.clone(),
        updated_at: now.to_owned(),
        opened_at: opt_clone(&old_issue.opened_at),
        resolved_by: opt_clone(&old_issue.resolved_by),
    };
    let ghost old_store = *store;
    let ghost c1 = ChangeV::InsertComment(row@);
    let ghost c2 = ChangeV::Touch { id, updated_at: now@ };
    let ghost mid = apply_change(old_store@, c1);
    store.comment_seq = cid;
    store.comments.push(CommentRow { id: cid, issue_id: id, body: body.to_owned(), created_at: now.to_owned() });
    store.issues.set(i, touched);
    store.changes.push(Change::InsertComment(row));
    store.changes.push(Change::Touch { id, updated_at: now.to_owned() });
    proof {
        lemma_apply_two(old_store@, c1, c2);
        assert(mid.issues == old_store@.issues);
        lemma_map_issue_at(mid, i as int, |x: IssueV| IssueV { updated_at: now@, ..x });
        assert(store@.issues =~= old_store@.issues.update(i as int, IssueV { updated_at: now@, ..old_store@.issues[i as int] }));
        assert(store@.comments =~= old_store@.comments.push(CommentRowV { id: cid, issue_id: id, body: body@, created_at: now@ }));
        assert(store.pending() =~= old_store.pending() + seq![c1, c2]);
    }
    Ok(Comment { id: cid, body: body.to_owned(), created_at: now.to_owned() })
}

/// Adds a comment to an issue now, and marks the issue updated then.
pub fn add_comment(store: &mut Store, id: i64, body: &str) -> (r: Result<Comment, DbError>)
    requires
        old(store).wf(),
    ensures
        final(store).wf(),
        match r {
            Ok(c) => {
                &&& utc_seconds_text(c.created_at@)
                &&& comment_error(old(store)@, id) is None
                &&& c@ == (CommentV { id: (old(store)@.comment_seq + 1) as i64, body: body@, created_at: c.created_at@ })
                &&& committed(*old(store), *final(store), seq![
                    ChangeV::InsertComment(CommentRowV { id: c.id, issue_id: id, body: body@, created_at: c.created_at@ }),
                    ChangeV::Touch { id, updated_at: c.created_at@ },
                ])
            },
            Err(e) => unchanged(*old(store), *final(store)) && match comment_error(old(store)@, id) {
                Some(x) => e@ == x,
                None => e@ == DbErrorV::Clock,
            },
        },
{
    if store.find_issue(id).is_none() {
        return Err(DbError::NotFound(id));
    }
    if store.comment_seq == i64::MAX {
        return Err(DbError::Full);
    }
    let now = match now_rfc3339() {
        Some(t) => t,
        None => return Err(DbError::Clock),
    };
    add_comment_at(store, id, body, &now)
}

// ---------------------------------------------------------------------------
// Edges.

/// The table without the pair `p`, in the same order.
pub fn remove_pair(v: &Vec<(i64, i64)>, p: (i64, i64)) -> (r: Vec<(i64, i64)>)
    ensures
        r@ == without(v@, p),
        v@.no_duplicates() ==> r@.no_duplicates(),
        forall|k: int| 0 <= k < r@.len() ==> v@.contains(#[trigger] r@[k]),
{
    let mut out: Vec<(i64, i64)> = Vec::new();
    let mut i: usize = 0;
    while i < v.len()
        invariant
            i <= v@.len(),
            out@ == v@.take(i as int).filter(other_than(p)),
            forall|k: int| 0 <= k < out@.len() ==> v@.take(i as int).contains(#[trigger] out@[k]),
            v@.no_duplicates() ==> out@.no_duplicates(),
        decreases v.len() - i,
    {
        proof {
            assert(v@.take(i + 1) =~= v@.take(i as int).push(v@[i as int]));
            v@.take(i as int).lemma_filter_push(v@[i as int], other_than(p));
        }
        let q = v[i];
        if q.0 != p.0 || q.1 != p.1 {
            let ghost before = out@;
            proof {
                if v@.no_duplicates() {
                    assert forall|k: int| 0 <= k < before.len() implies before[k] != q by {
                        let j = choose|j: int| 0 <= j < i && v@.take(i as int)[j] == before[k];
                        assert(v@[j] == before[k]);
                    }
                }
            }
            out.push(q);
            proof {
                assert forall|k: int| 0 <= k < out@.len() implies v@.take(i + 1).contains(#[trigger] out@[k]) by {
                    if k < before.len() {
                        let j = choose|j: int| 0 <= j < i && v@.take(i as int)[j] == before[k];
                        assert(v@.take(i + 1)[j] == out@[k]);
                    } else {
                        assert(v@.take(i + 1)[i as int] == out@[k]);
                    }
                }
            }
        } else {
            proof {
                assert forall|k: int| 0 <= k < out@.len() implies v@.take(i + 1).contains(#[trigger] out@[k]) by {
                    let j = choose|j: int| 0 <= j < i && v@.take(i as int)[j] == out@[k];
                    assert(v@.take(i + 1)[j] == out@[k]);
                }
            }
        }
        i = i + 1;
    }
    assert(v@.take(v@.len() as int) =~= v@);
    out
}

/// Why adding the dependency is refused, if it is: a missing issue, a
/// missing dependency, or an issue that would depend on itself.
pub open spec fn dependency_error(s: StoreV, id: i64, depends_on: i64) -> Option<DbErrorV> {
    if !has_issue(s, id) {
        Some(DbErrorV::NotFound(id))
    } else if !has_issue(s, depends_on) {
        Some(DbErrorV::NotFound(depends_on))
    } else if id == depends_on {
        Some(DbErrorV::SelfDependency)
    } else {
        None
    }
}

/// Makes issue `id` depend on issue `depends_on`; adding an edge that is
/// already there changes nothing.
pub fn add_dependency(store: &mut Store, id: i64, depends_on: i64) -> (r: Result<(), DbError>)
    requires
        old(store).wf(),
    ensures
        final(store).wf(),
        match r {
            Ok(()) => {
                &&& dependency_error(old(store)@, id, depends_on) is None
                &&& old(store)@.deps.contains((id, depends_on)) ==> unchanged(*old(store), *final(store))
                &&& !old(store)@.deps.contains((id, depends_on)) ==> committed(*old(store), *final(store), seq![
                    ChangeV::InsertDependency { issue_id: id, depends_on },
                ])
            },
            Err(e) => dependency_error(old(store)@, id, depends_on) == Some(e@) && unchanged(*old(store), *final(store)),
        },
{
    if store.find_issue(id).is_none() {
        return Err(DbError::NotFound(id));
    }
    if store.find_issue(depends_on).is_none() {
        return Err(DbError::NotFound(depends_on));
    }
    if id == depends_on {
        return Err(DbError::SelfDependency);
    }
    if contains_pair(&store.deps, id, depends_on) {
        return Ok(());
    }
    let ghost old_store = *store;
    let ghost c = ChangeV::InsertDependency { issue_id: id, depends_on };
    store.deps.push((id, depends_on));
    store.changes.push(Change::InsertDependency { issue_id: id, depends_on });
    proof {
        lemma_apply_one(old_store@, c);
        assert(store.pending() =~= old_store.pending() + seq![c]);
    }
    Ok(())
}

/// Drops the edge from issue `id` to `depends_on`; says whether there was one.
pub fn remove_dependency(store: &mut Store, id: i64, depends_on: i64) -> (r: Result<bool, DbError>)
    requires
        old(store).wf(),
    ensures
        final(store).wf(),
        match r {
            Ok(removed) => {
                &&& has_issue(old(store)@, id)
                &&& removed == old(store)@.deps.contains((id, depends_on))
                &&& removed ==> committed(*old(store), *final(store), seq![
                    ChangeV::DeleteDependency { issue_id: id, depends_on },
                ])
                &&& !removed ==> unchanged(*old(store), *final(store))
            },
            Err(e) => e@ == DbErrorV::NotFound(id) && !has_issue(old(store)@, id) && unchanged(*old(store), *final(store)),
        },
{
    if store.find_issue(id).is_none() {
        return Err(DbError::NotFound(id));
    }
    if !contains_pair(&store.deps, id, depends_on) {
        return Ok(false);
    }
    let ghost old_store = *store;
    let ghost c = ChangeV::DeleteDependency { issue_id: id, depends_on };
    store.deps = remove_pair(&store.deps, (id, depends_on));
    store.changes.push(Change::DeleteDependency { issue_id: id, depends_on });
    proof {
        lemma_apply_one(old_store@, c);
        assert(store.pending() =~= old_store.pending() + seq![c]);
    }
    Ok(true)
}

/// Why attaching the issue to the parent is refused, if it is.
pub open spec fn membership_error(s: StoreV, child: i64, parent: i64) -> Option<DbErrorV> {
    if !has_issue(s, child) {
        Some(DbErrorV::NotFound(child))
    } else if !has_issue(s, parent) {
        Some(DbErrorV::NotFound(parent))
    } else if child == parent {
        Some(DbErrorV::SelfMembership)
    } else {
        None
    }
}

/// Attaches issue `child` to issue `parent`; says whether it was not yet attached.
pub fn add_membership(store: &mut Store, child: i64, parent: i64) -> (r: Result<bool, DbError>)
    requires
        old(store).wf(),
    ensures
        final(store).wf(),
        match r {
            Ok(added) => {
                &&& membership_error(old(store)@, child, parent) is None
                &&& added == !old(store)@.members.contains((child, parent))
                &&& added ==> committed(*old(store), *final(store), seq![
                    ChangeV::InsertMembership { child, parent },
                ])
                &&& !added ==> unchanged(*old(store), *final(store))
            },
            Err(e) => membership_error(old(store)@, child, parent) == Some(e@) && unchanged(*old(store), *final(store)),
        },
{
    if store.find_issue(child).is_none() {
        return Err(DbError::NotFound(child));
    }
    if store.find_issue(parent).is_none() {
        return Err(DbError::NotFound(parent));
    }
    if child == parent {
        return Err(DbError::SelfMembership);
    }
    if contains_pair(&store.members, child, parent) {
        return Ok(false);
    }
    let ghost old_store = *store;
    let ghost c = ChangeV::InsertMembership { child, parent };
    store.members.push((child, parent));
    store.changes.push(Change::InsertMembership { child, parent });
    proof {
        lemma_apply_one(old_store@, c);
        assert(store.pending() =~= old_store.pending() + seq![c]);
    }
    Ok(true)
}

/// Detaches issue `child` from issue `parent`; says whether it was attached.
pub fn remove_membership(store: &mut Store, child: i64, parent: i64) -> (r: Result<bool, DbError>)
    requires
        old(store).wf(),
    ensures
        final(store).wf(),
        match r {
            Ok(removed) => {
                &&& has_issue(old(store)@, child)
                &&& removed == old(store)@.members.contains((child, parent))
                &&& removed ==> committed(*old(store), *final(store), seq![
                    ChangeV::DeleteMembership { child, parent },
                ])
                &&& !removed ==> unchanged(*old(store), *final(store))
            },
            Err(e) => e@ == DbErrorV::NotFound(child) && !has_issue(old(store)@, child) && unchanged(*old(store), *final(store)),
        },
{
    if store.find_issue(child).is_none() {
        return Err(DbError::NotFound(child));
    }
    if !contains_pair(&store.members, child, parent) {
        return Ok(false);
    }
    let ghost old_store = *store;
    let ghost c = ChangeV::DeleteMembership { child, parent };
    store.members = remove_pair(&store.members, (child, parent));
    store.changes.push(Change::DeleteMembership { child, parent });
    proof {
        lemma_apply_one(old_store@, c);
        assert(store.pending() =~= old_store.pending() + seq![c]);
    }
    Ok(true)
}

// ---------------------------------------------------------------------------
// Labels.

/// In a name-ordered table, the labels before position `p` sort before
/// `name` and the rest after it, except one with that very name at `p`.
proof fn lemma_label_split(s: StoreV, name: Seq<char>, p: int)
    requires
        s.wf(),
        0 <= p <= s.labels.len(),
        forall|j: int| 0 <= j < p ==> chars_lt(#[trigger] s.labels[j].name, name),
        p < s.labels.len() ==> !chars_lt(s.labels[p].name, name),
    ensures
        label_exists(s, name) <==> (p < s.labels.len() && s.labels[p].name == name),
        label_exists(s, name) ==> label_index(s, name) == p,
        !label_exists(s, name) ==> forall|j: int| p <= j < s.labels.len() ==> chars_lt(name, #[trigger] s.labels[j].name),
{
    if p < s.labels.len() && s.labels[p].name != name {
        lemma_chars_lt_total(s.labels[p].name, name);
        assert forall|j: int| p <= j < s.labels.len() implies chars_lt(name, #[trigger] s.labels[j].name) by {
            if j > p {
                lemma_chars_lt_transitive(name, s.labels[p].name, s.labels[j].name);
            }
        }
    }
    assert forall|j: int| 0 <= j < s.labels.len() && j != p implies s.labels[j].name != name by {
        if j < p {
            lemma_chars_lt_irreflexive(name);
        } else if p < s.labels.len() && s.labels[p].name != name {
            lemma_chars_lt_irreflexive(name);
        } else if p < s.labels.len() {
            lemma_chars_lt_irreflexive(name);
        }
    }
    if label_exists(s, name) {
        let k = label_index(s, name);
        assert(0 <= k < s.labels.len() && s.labels[k].name == name);
    }
}

/// Where a label with this name stands or would go, and whether it stands there.
fn label_slot(store: &Store, name: &str) -> (r: (usize, bool))
    requires
        store.wf(),
    ensures
        r.0 <= store@.labels.len(),
        r.1 == label_exists(store@, name@),
        r.1 ==> label_index(store@, name@) == r.0 as int,
        !r.1 ==> r.0 as int == label_pos(store@.labels, name@),
        forall|j: int| 0 <= j < r.0 ==> chars_lt(#[trigger] store@.labels[j].name, name@),
        !r.1 ==> forall|j: int| r.0 <= j < store@.labels.len() ==> chars_lt(name@, #[trigger] store@.labels[j].name),
{
    let mut p: usize = 0;
    assert(store@.labels.skip(0) =~= store@.labels);
    while p < store.labels.len() && str_lt(&store.labels[p].name, name)
        invariant
            p <= store@.labels.len(),
            store.labels@.len() == store@.labels.len(),
            forall|j: int| 0 <= j < p ==> chars_lt(#[trigger] store@.labels[j].name, name@),
            label_pos(store@.labels, name@) == p + label_pos(store@.labels.skip(p as int), name@),
        decreases store.labels.len() - p,
    {
        assert(store@.labels.skip(p as int).drop_first() =~= store@.labels.skip(p + 1));
        p = p + 1;
    }
    let found = p < store.labels.len() && str_eq(&store.labels[p].name, name);
    proof {
        lemma_label_split(store@, name@, p as int);
        if p < store@.labels.len() {
            assert(store@.labels.skip(p as int)[0] == store@.labels[p as int]);
        }
    }
    (p, found)
}

/// Why labelling the issue is refused, if it is: a missing issue, a name
/// that is empty once trimmed, or a new label with no id left.
pub open spec fn label_error(s: StoreV, id: i64, name: Seq<char>) -> Option<DbErrorV> {
    if !has_issue(s, id) {
        Some(DbErrorV::NotFound(id))
    } else if trim(name).len() == 0 {
        Some(DbErrorV::EmptyLabelName)
    } else if !label_exists(s, trim(name)) && s.label_seq == i64::MAX {
        Some(DbErrorV::Full)
    } else {
        None
    }
}

/// The changes of labelling: the label itself when no label has the name
/// yet, then the link when the issue does not carry it yet.
pub open spec fn label_changes(s: StoreV, id: i64, name: Seq<char>) -> Seq<ChangeV> {
    let lid = label_id_for(s, name);
    (if label_exists(s, name) {
        Seq::empty()
    } else {
        seq![ChangeV::InsertLabel(LabelV { id: lid, name: name })]
    }) + (if s.links.contains((id, lid)) {
        Seq::empty()
    } else {
        seq![ChangeV::InsertLink { issue_id: id, label_id: lid }]
    })
}

/// Attaches the label with the trimmed name to the issue, making the label
/// first if there is none; says whether the issue did not carry it yet.
pub fn add_label(store: &mut Store, id: i64, name: &str) -> (r: Result<bool, DbError>)
    requires
        old(store).wf(),
    ensures
        final(store).wf(),
        match r {
            Ok(added) => {
                &&& label_error(old(store)@, id, name@) is None
                &&& added == !old(store)@.links.contains((id, label_id_for(old(store)@, trim(name@))))
                &&& committed(*old(store), *final(store), label_changes(old(store)@, id, trim(name@)))
            },
            Err(e) => label_error(old(store)@, id, name@) == Some(e@) && unchanged(*old(store), *final(store)),
        },
{
    if store.find_issue(id).is_none() {
        return Err(DbError::NotFound(id));
    }
    let t = trim_str(name);
    if t.is_empty() {
        return Err(DbError::EmptyLabelName);
    }
    let (p, found) = label_slot(store, t);
    if !found && store.label_seq == i64::MAX {
        return Err(DbError::Full);
    }
    let ghost s0 = store@;
    let ghost old_store = *store;
    let ghost lid = label_id_for(s0, t@);
    let lid_exec = if found {
        store.labels[p].id
    } else {
        let new_id = store.label_seq + 1;
        let ghost c = ChangeV::InsertLabel(LabelV { id: new_id, name: t@ });
        store.labels.insert(p, Label { id: new_id, name: t.to_owned() });
        store.label_seq = new_id;
        store.changes.push(Change::InsertLabel(Label { id: new_id, name: t.to_owned() }));
        proof {
            assert(store@.labels =~= s0.labels.insert(p as int, LabelV { id: new_id, name: t@ }));
            assert(store@ == apply_change(s0, c));
            assert forall|k: int| 0 <= k < store@.links.len() implies has_label_id(
                store@.labels,
                #[trigger] store@.links[k].1,
            ) by {
                assert(store@.links[k] == s0.links[k]);
                assert(has_label_id(s0.labels, s0.links[k].1));
                let j = choose|j: int| 0 <= j < s0.labels.len() && #[trigger] s0.labels[j].id == s0.links[k].1;
                if j < p {
                    assert(store@.labels[j] == s0.labels[j]);
                } else {
                    assert(store@.labels[j + 1] == s0.labels[j]);
                }
            }
            assert forall|i: int, j: int| 0 <= i < j < store@.labels.len() implies chars_lt(
                store@.labels[i].name,
                store@.labels[j].name,
            ) by {
                if j < p {
                } else if j == p {
                } else if i < p {
                    lemma_chars_lt_transitive(s0.labels[i].name, t@, s0.labels[j - 1].name);
                } else if i == p {
                } else {
                }
            }
        }
        new_id
    };
    let ghost s1 = store@;
    let ghost pend1 = store.pending();
    assert(lid_exec == lid);
    let added = !contains_pair(&store.links, id, lid_exec);
    proof {
        if found {
            assert(s1.labels[p as int].id == lid);
        } else {
            assert(s1.labels[p as int].id == lid);
        }
        assert(has_label_id(s1.labels, lid));
    }
    if added {
        store.links.push((id, lid_exec));
        store.changes.push(Change::InsertLink { issue_id: id, label_id: lid_exec });
        proof {
            assert forall|k: int| 0 <= k < store@.links.len() implies has_label_id(
                store@.labels,
                #[trigger] store@.links[k].1,
            ) by {
                if k < s1.links.len() {
                    assert(store@.links[k] == s1.links[k]);
                    assert(has_label_id(s1.labels, s1.links[k].1));
                }
            }
        }
    }
    proof {
        let cs = label_changes(s0, id, t@);
        let first: Seq<ChangeV> = if found { Seq::empty() } else { seq![ChangeV::InsertLabel(LabelV { id: lid, name: t@ })] };
        let second: Seq<ChangeV> = if added { seq![ChangeV::InsertLink { issue_id: id, label_id: lid }] } else { Seq::empty() };
        assert(cs == first + second);
        assert(s1 == apply_changes(s0, first)) by {
            if !found {
                lemma_apply_one(s0, first[0]);
            }
        }
        assert(pend1 == old_store.pending() + first) by {
            if found {
                assert(pend1 =~= old_store.pending() + first);
            } else {
                assert(pend1 =~= old_store.pending() + first);
            }
        }
        if added {
            assert(store@ == apply_change(s1, second[0]));
            if found {
                lemma_apply_one(s0, second[0]);
                assert(cs =~= second);
            } else {
                lemma_apply_two(s0, first[0], second[0]);
                assert(cs =~= seq![first[0], second[0]]);
            }
            assert(store.pending() =~= old_store.pending() + cs);
        } else {
            assert(cs =~= first);
            assert(store.pending() =~= old_store.pending() + cs);
        }
    }
    Ok(added)
}

/// Whether the issue carries a label with exactly this name (not trimmed).
pub open spec fn label_attached(s: StoreV, id: i64, name: Seq<char>) -> bool {
    label_exists(s, name) && s.links.contains((id, label_id_for(s, name)))
}

/// Detaches the label with exactly this name from the issue; says whether
/// the issue carried it.
pub fn remove_label(store: &mut Store, id: i64, name: &str) -> (r: Result<bool, DbError>)
    requires
        old(store).wf(),
    ensures
        final(store).wf(),
        match r {
            Ok(removed) => {
                &&& has_issue(old(store)@, id)
                &&& removed == label_attached(old(store)@, id, name@)
                &&& removed ==> committed(*old(store), *final(store), seq![
                    ChangeV::DeleteLink { issue_id: id, label_id: label_id_for(old(store)@, name@) },
                ])
                &&& !removed ==> unchanged(*old(store), *final(store))
            },
            Err(e) => e@ == DbErrorV::NotFound(id) && !has_issue(old(store)@, id) && unchanged(*old(store), *final(store)),
        },
{
    if store.find_issue(id).is_none() {
        return Err(DbError::NotFound(id));
    }
    let (p, found) = label_slot(store, name);
    if !found {
        return Ok(false);
    }
    let lid = store.labels[p].id;
    if !contains_pair(&store.links, id, lid) {
        return Ok(false);
    }
    let ghost old_store = *store;
    let ghost c = ChangeV::DeleteLink { issue_id: id, label_id: lid };
    store.links = remove_pair(&store.links, (id, lid));
    store.changes.push(Change::DeleteLink { issue_id: id, label_id: lid });
    proof {
        lemma_apply_one(old_store@, c);
        assert(store.pending() =~= old_store.pending() + seq![c]);
    }
    Ok(true)
}

// ---------------------------------------------------------------------------
// Title and body.

/// Why editing the title or body is refused, if it is: a missing issue, then
/// a new title that is empty once trimmed.
pub open spec fn text_error(s: StoreV, id: i64, title: Option<Seq<char>>) -> Option<DbErrorV> {
    if !has_issue(s, id) {
        Some(DbErrorV::NotFound(id))
    } else if title is Some && trim(title->0).len() == 0 {
        Some(DbErrorV::EmptyTitle)
    } else {
        None
    }
}

/// The issue after an edit: the trimmed new title and the new body where
/// given, updated now.
pub open spec fn edited_issue(x: IssueV, title: Option<Seq<char>>, body: Option<Seq<char>>, now: Seq<char>) -> IssueV {
    IssueV {
        title: match title {
            Some(t) => trim(t),
            None => x.title,
        },
        body: match body {
            Some(b) => b,
            None => x.body,
        },
        updated_at: now,
        ..x
    }
}

/// The change that records an edited issue's text.
pub open spec fn text_change(x: IssueV) -> ChangeV {
    ChangeV::SetText { id: x.id, title: x.title, body: x.body, updated_at: x.updated_at }
}

/// Rewrites the issue at position `i` with a new title and body, updated now,
/// and records the change.
fn set_text(store: &mut Store, i: usize, title: String, body: String, now: &str) -> (r: Issue)
    requires
        old(store).wf(),
        i < old(store)@.issues.len(),
    ensures
        final(store).wf(),
        r@ == (IssueV { title: title@, body: body@, updated_at: now@, ..old(store)@.issues[i as int] }),
        committed(*old(store), *final(store), seq![text_change(r@)]),
{
    let old_issue = &store.issues[i];
    let issue = Issue {
        id: old_issue.id,
        title,
        body,
        status: old_issue.status.clone(),
        created_at: old_issue.created_at.clone(),
        updated_at: now.to_owned(),
        opened_at: opt_clone(&old_issue.opened_at),
        resolved_by: opt_clone(&old_issue.resolved_by),
    };
    let ghost old_store = *store;
    let ghost c = text_change(issue@);
    store.issues.set(i, issue.duplicate());
    store.changes.push(Change::SetText {
        id: issue.id,
        title: issue.title.clone(),
        body: issue.body.clone(),
        updated_at: issue.updated_at.clone(),
    });
    proof {
        lemma_apply_one(old_store@, c);
        lemma_map_issue_at(old_store@, i as int, |x: IssueV| IssueV { title: title@, body: body@, updated_at: now@, ..x });
        assert(store@.issues =~= old_store@.issues.update(i as int, issue@));
        assert(store.pending() =~= old_store.pending() + seq![c]);
    }
    issue
}

/// The characters of an optional string.
pub open spec fn opt_text(o: Option<&str>) -> Option<Seq<char>> {
    match o {
        Some(s) => Some(s@),
        None => None,
    }
}

/// Replaces the title (trimmed) and the body of an issue, each where given,
/// at time `now`.
pub fn update_issue_at(store: &mut Store, id: i64, title: Option<&str>, body: Option<&str>, now: &str) -> (r: Result<Issue, DbError>)
    requires
        old(store).wf(),
    ensures
        final(store).wf(),
        match r {
            Ok(issue) => {
                &&& text_error(old(store)@, id, opt_text(title)) is None
                &&& issue@ == edited_issue(issue_of(old(store)@, id), opt_text(title), opt_text(body), now@)
                &&& committed(*old(store), *final(store), seq![text_change(issue@)])
            },
            Err(e) => text_error(old(store)@, id, opt_text(title)) == Some(e@) && unchanged(*old(store), *final(store)),
        },
{
    let i = match store.find_issue(id) {
        Some(i) => i,
        None => return Err(DbError::NotFound(id)),
    };
    let new_title = match title {
        Some(t) => {
            let tt = trim_str(t);
            if tt.is_empty() {
                return Err(DbError::EmptyTitle);
            }
            tt.to_owned()
        },
        None => store.issues[i].title.clone(),
    };
    let new_body = match body {
        Some(b) => b.to_owned(),
        None => store.issues[i].body.clone(),
    };
    Ok(set_text(store, i, new_title, new_body, now))
}

/// Replaces the title (trimmed) and the body of an issue, each where given, now.
pub fn update_issue(store: &mut Store, id: i64, title: Option<&str>, body: Option<&str>) -> (r: Result<Issue, DbError>)
    requires
        old(store).wf(),
    ensures
        final(store).wf(),
        match r {
            Ok(issue) => {
                &&& utc_seconds_text(issue.updated_at@)
                &&& text_error(old(store)@, id, opt_text(title)) is None
                &&& issue@ == edited_issue(issue_of(old(store)@, id), opt_text(title), opt_text(body), issue.updated_at@)
                &&& committed(*old(store), *final(store), seq![text_change(issue@)])
            },
            Err(e) => unchanged(*old(store), *final(store)) && match text_error(old(store)@, id, opt_text(title)) {
                Some(x) => e@ == x,
                None => e@ == DbErrorV::Clock,
            },
        },
{
    if store.find_issue(id).is_none() {
        return Err(DbError::NotFound(id));
    }
    match title {
        Some(t) => {
            if trim_str(t).is_empty() {
                return Err(DbError::EmptyTitle);
            }
        },
        None => {},
    }
    let now = match now_rfc3339() {
        Some(t) => t,
        None => return Err(DbError::Clock),
    };
    update_issue_at(store, id, title, body, &now)
}

/// A body with text appended: the text alone when the body is empty, after
/// the body when it ends with a newline, and else on a line of its own.
pub open spec fn appended(body: Seq<char>, text: Seq<char>) -> Seq<char> {
    if body.len() == 0 || body.last() == '\n' {
        body + text
    } else {
        body.push('\n') + text
    }
}

/// Appends text to the body of an issue at time `now`.
pub fn append_body_at(store: &mut Store, id: i64, text: &str, now: &str) -> (r: Result<Issue, DbError>)
    requires
        old(store).wf(),
    ensures
        final(store).wf(),
        match r {
            Ok(issue) => {
                &&& has_issue(old(store)@, id)
                &&& issue@ == (IssueV {
                    body: appended(issue_of(old(store)@, id).body, text@),
                    updated_at: now@,
                    ..issue_of(old(store)@, id)
                })
                &&& committed(*old(store), *final(store), seq![text_change(issue@)])
            },
            Err(e) => e@ == DbErrorV::NotFound(id) && !has_issue(old(store)@, id) && unchanged(*old(store), *final(store)),
        },
{
    let i = match store.find_issue(id) {
        Some(i) => i,
        None => return Err(DbError::NotFound(id)),
    };
    let mut body = store.issues[i].body.clone();
    let n = body.as_str().unicode_len();
    if n > 0 && body.as_str().get_char(n - 1) != '\n' {
        push_char(&mut body, '\n');
    }
    body.append(text);
    let title = store.issues[i].title.clone();
    Ok(set_text(store, i, title, body, now))
}

/// Appends text to the body of an issue now.
pub fn append_body(store: &mut Store, id: i64, text: &str) -> (r: Result<Issue, DbError>)
    requires
        old(store).wf(),
    ensures
        final(store).wf(),
        match r {
            Ok(issue) => {
                &&& utc_seconds_text(issue.updated_at@)
                &&& has_issue(old(store)@, id)
                &&& issue@ == (IssueV {
                    body: appended(issue_of(old(store)@, id).body, text@),
                    updated_at: issue.updated_at@,
                    ..issue_of(old(store)@, id)
                })
                &&& committed(*old(store), *final(store), seq![text_change(issue@)])
            },
            Err(e) => unchanged(*old(store), *final(store)) && if has_issue(old(store)@, id) {
                e@ == DbErrorV::Clock
            } else {
                e@ == DbErrorV::NotFound(id)
            },
        },
{
    if store.find_issue(id).is_none() {
        return Err(DbError::NotFound(id));
    }
    let now = match now_rfc3339() {
        Some(t) => t,
        None => return Err(DbError::Clock),
    };
    append_body_at(store, id, text, &now)
}

} // verus!
