//! The issue store: its records and their views, the tables with the
//! invariant they keep, and the queries and edits of the tracker over them.

use vstd::prelude::*;

use crate::text::{decimal, decimal_text, opt_clone, opt_view};

pub mod edit;
pub mod laws;
pub mod query;
pub mod store;

verus! {

/// An issue as stored: its id, title, body, status, timestamps, and its
/// commit anchors: the commit it was opened at and the commit that resolved it.
#[derive(Debug)]
pub struct Issue {
    pub id: i64,
    pub title: String,
    pub body: String,
    pub status: String,
    pub created_at: String,
    pub updated_at: String,
    pub opened_at: Option<String>,
    pub resolved_by: Option<String>,
}

/// The view of an [`Issue`].
pub struct IssueV {
    pub id: i64,
    pub title: Seq<char>,
    pub body: Seq<char>,
    pub status: Seq<char>,
    pub created_at: Seq<char>,
    pub updated_at: Seq<char>,
    pub opened_at: Option<Seq<char>>,
    pub resolved_by: Option<Seq<char>>,
}

impl View for Issue {
    type V = IssueV;

    open spec fn view(&self) -> IssueV {
        IssueV {
            id: self.id,
            title: self.title@,
            body: self.body@,
            status: self.status@,
            created_at: self.created_at@,
            updated_at: self.updated_at@,
            opened_at: opt_view(self.opened_at),
            resolved_by: opt_view(self.resolved_by),
        }
    }
}

impl Issue {
    /// A copy of the issue.
    pub fn duplicate(&self) -> (r: Issue)
        ensures
            r@ == self@,
    {
        Issue {
            id: self.id,
            title: self.title.clone(),
            body: self.body.clone(),
            status: self.status.clone(),
            created_at: self.created_at.clone(),
            updated_at: self.updated_at.clone(),
            opened_at: opt_clone(&self.opened_at),
            resolved_by: opt_clone(&self.resolved_by),
        }
    }
}

/// One line of a listing: an issue with its labels.
#[derive(Debug)]
pub struct IssueSummary {
    pub id: i64,
    pub title: String,
    pub status: String,
    pub labels: Vec<String>,
}

/// The view of an [`IssueSummary`].
pub struct SummaryV {
    pub id: i64,
    pub title: Seq<char>,
    pub status: Seq<char>,
    pub labels: Seq<Seq<char>>,
}

/// The views of a sequence of strings.
pub open spec fn strings_view(v: Seq<String>) -> Seq<Seq<char>> {
    v.map_values(|s: String| s@)
}

impl View for IssueSummary {
    type V = SummaryV;

    open spec fn view(&self) -> SummaryV {
        SummaryV {
            id: self.id,
            title: self.title@,
            status: self.status@,
            labels: strings_view(self.labels@),
        }
    }
}

/// A comment on an issue.
#[derive(Debug)]
pub struct Comment {
    pub id: i64,
    pub body: String,
    pub created_at: String,
}

/// The view of a [`Comment`].
pub struct CommentV {
    pub id: i64,
    pub body: Seq<char>,
    pub created_at: Seq<char>,
}

impl View for Comment {
    type V = CommentV;

    open spec fn view(&self) -> CommentV {
        CommentV { id: self.id, body: self.body@, created_at: self.created_at@ }
    }
}

/// An issue that another issue waits on.
#[derive(Debug)]
pub struct Dependency {
    pub id: i64,
    pub title: String,
    pub status: String,
}

/// The view of a [`Dependency`].
pub struct DependencyV {
    pub id: i64,
    pub title: Seq<char>,
    pub status: Seq<char>,
}

impl View for Dependency {
    type V = DependencyV;

    open spec fn view(&self) -> DependencyV {
        DependencyV { id: self.id, title: self.title@, status: self.status@ }
    }
}

/// An open issue with the unresolved dependencies that block it.
#[derive(Debug)]
pub struct BlockedSummary {
    pub id: i64,
    pub title: String,
    pub blocked_by: Vec<Dependency>,
}

/// The view of a [`BlockedSummary`].
pub struct BlockedV {
    pub id: i64,
    pub title: Seq<char>,
    pub blocked_by: Seq<DependencyV>,
}

impl View for BlockedSummary {
    type V = BlockedV;

    open spec fn view(&self) -> BlockedV {
        BlockedV {
            id: self.id,
            title: self.title@,
            blocked_by: self.blocked_by@.map_values(|d: Dependency| d@),
        }
    }
}

/// Everything about one issue: its record, labels, comments and edges.
#[derive(Debug)]
pub struct IssueDetail {
    pub issue: Issue,
    pub labels: Vec<String>,
    pub comments: Vec<Comment>,
    pub blocked_by: Vec<i64>,
    pub blocks: Vec<i64>,
    pub parents: Vec<i64>,
    pub children: Vec<i64>,
}

/// The view of an [`IssueDetail`].
pub struct DetailV {
    pub issue: IssueV,
    pub labels: Seq<Seq<char>>,
    pub comments: Seq<CommentV>,
    pub blocked_by: Seq<i64>,
    pub blocks: Seq<i64>,
    pub parents: Seq<i64>,
    pub children: Seq<i64>,
}

impl View for IssueDetail {
    type V = DetailV;

    open spec fn view(&self) -> DetailV {
        DetailV {
            issue: self.issue@,
            labels: strings_view(self.labels@),
            comments: self.comments@.map_values(|c: Comment| c@),
            blocked_by: self.blocked_by@,
            blocks: self.blocks@,
            parents: self.parents@,
            children: self.children@,
        }
    }
}

/// A row of the label table: a label's id and its name.
#[derive(Debug)]
pub struct Label {
    pub id: i64,
    pub name: String,
}

/// The view of a [`Label`].
pub struct LabelV {
    pub id: i64,
    pub name: Seq<char>,
}

impl View for Label {
    type V = LabelV;

    open spec fn view(&self) -> LabelV {
        LabelV { id: self.id, name: self.name@ }
    }
}

/// A row of the comment table: a comment and the issue it belongs to.
#[derive(Debug)]
pub struct CommentRow {
    pub id: i64,
    pub issue_id: i64,
    pub body: String,
    pub created_at: String,
}

/// The view of a [`CommentRow`].
pub struct CommentRowV {
    pub id: i64,
    pub issue_id: i64,
    pub body: Seq<char>,
    pub created_at: Seq<char>,
}

impl View for CommentRow {
    type V = CommentRowV;

    open spec fn view(&self) -> CommentRowV {
        CommentRowV {
            id: self.id,
            issue_id: self.issue_id,
            body: self.body@,
            created_at: self.created_at@,
        }
    }
}

/// What to do with a commit anchor: keep it, set it to a hash, or clear it.
pub enum AnchorEdit {
    Keep,
    Replace(String),
    Clear,
}

/// The view of an [`AnchorEdit`].
pub enum AnchorEditV {
    Keep,
    Replace(Seq<char>),
    Clear,
}

impl View for AnchorEdit {
    type V = AnchorEditV;

    open spec fn view(&self) -> AnchorEditV {
        match self {
            AnchorEdit::Keep => AnchorEditV::Keep,
            AnchorEdit::Replace(h) => AnchorEditV::Replace(h@),
            AnchorEdit::Clear => AnchorEditV::Clear,
        }
    }
}

/// An anchor after the edit.
pub open spec fn edited_anchor(old: Option<Seq<char>>, e: AnchorEditV) -> Option<Seq<char>> {
    match e {
        AnchorEditV::Keep => old,
        AnchorEditV::Replace(h) => Some(h),
        AnchorEditV::Clear => None,
    }
}

/// One row-level change that an edit made, for the caller to persist.
#[derive(Debug)]
pub enum Change {
    InsertIssue(Issue),
    SetStatus { id: i64, status: String, updated_at: String },
    SetText { id: i64, title: String, body: String, updated_at: String },
    Touch { id: i64, updated_at: String },
    SetAnchors { id: i64, opened_at: Option<String>, resolved_by: Option<String>, updated_at: String },
    InsertLabel(Label),
    InsertLink { issue_id: i64, label_id: i64 },
    DeleteLink { issue_id: i64, label_id: i64 },
    InsertComment(CommentRow),
    InsertDependency { issue_id: i64, depends_on: i64 },
    DeleteDependency { issue_id: i64, depends_on: i64 },
    InsertMembership { child: i64, parent: i64 },
    DeleteMembership { child: i64, parent: i64 },
}

/// The view of a [`Change`].
pub enum ChangeV {
    InsertIssue(IssueV),
    SetStatus { id: i64, status: Seq<char>, updated_at: Seq<char> },
    SetText { id: i64, title: Seq<char>, body: Seq<char>, updated_at: Seq<char> },
    Touch { id: i64, updated_at: Seq<char> },
    SetAnchors {
        id: i64,
        opened_at: Option<Seq<char>>,
        resolved_by: Option<Seq<char>>,
        updated_at: Seq<char>,
    },
    InsertLabel(LabelV),
    InsertLink { issue_id: i64, label_id: i64 },
    DeleteLink { issue_id: i64, label_id: i64 },
    InsertComment(CommentRowV),
    InsertDependency { issue_id: i64, depends_on: i64 },
    DeleteDependency { issue_id: i64, depends_on: i64 },
    InsertMembership { child: i64, parent: i64 },
    DeleteMembership { child: i64, parent: i64 },
}

impl View for Change {
    type V = ChangeV;

    open spec fn view(&self) -> ChangeV {
        match self {
            Change::InsertIssue(i) => ChangeV::InsertIssue(i@),
            Change::SetStatus { id, status, updated_at } => ChangeV::SetStatus {
                id: *id,
                status: status@,
                updated_at: updated_at@,
            },
            Change::SetText { id, title, body, updated_at } => ChangeV::SetText {
                id: *id,
                title: title@,
                body: body@,
                updated_at: updated_at@,
            },
            Change::Touch { id, updated_at } => ChangeV::Touch { id: *id, updated_at: updated_at@ },
            Change::SetAnchors { id, opened_at, resolved_by, updated_at } => ChangeV::SetAnchors {
                id: *id,
                opened_at: opt_view(*opened_at),
                resolved_by: opt_view(*resolved_by),
                updated_at: updated_at@,
            },
            Change::InsertLabel(l) => ChangeV::InsertLabel(l@),
            Change::InsertLink { issue_id, label_id } => ChangeV::InsertLink {
                issue_id: *issue_id,
                label_id: *label_id,
            },
            Change::DeleteLink { issue_id, label_id } => ChangeV::DeleteLink {
                issue_id: *issue_id,
                label_id: *label_id,
            },
            Change::InsertComment(c) => ChangeV::InsertComment(c@),
            Change::InsertDependency { issue_id, depends_on } => ChangeV::InsertDependency {
                issue_id: *issue_id,
                depends_on: *depends_on,
            },
            Change::DeleteDependency { issue_id, depends_on } => ChangeV::DeleteDependency {
                issue_id: *issue_id,
                depends_on: *depends_on,
            },
            Change::InsertMembership { child, parent } => ChangeV::InsertMembership {
                child: *child,
                parent: *parent,
            },
            Change::DeleteMembership { child, parent } => ChangeV::DeleteMembership {
                child: *child,
                parent: *parent,
            },
        }
    }
}

/// Why the store refused a request.
#[derive(Debug)]
pub enum DbError {
    /// The title is empty once trimmed.
    EmptyTitle,
    /// The status is not one of the four statuses.
    UnknownStatus(String),
    /// No issue has this id.
    NotFound(i64),
    /// The label name is empty once trimmed.
    EmptyLabelName,
    /// An issue was to depend on itself.
    SelfDependency,
    /// An issue was to be attached to itself.
    SelfMembership,
    /// The clock reads before the Unix epoch or past what can be written.
    Clock,
    /// The largest id of a table is used up.
    Full,
    /// Rows handed to the store break its invariant.
    Corrupt,
}

/// The view of a [`DbError`].
pub enum DbErrorV {
    EmptyTitle,
    UnknownStatus(Seq<char>),
    NotFound(i64),
    EmptyLabelName,
    SelfDependency,
    SelfMembership,
    Clock,
    Full,
    Corrupt,
}

impl View for DbError {
    type V = DbErrorV;

    open spec fn view(&self) -> DbErrorV {
        match self {
            DbError::EmptyTitle => DbErrorV::EmptyTitle,
            DbError::UnknownStatus(s) => DbErrorV::UnknownStatus(s@),
            DbError::NotFound(id) => DbErrorV::NotFound(*id),
            DbError::EmptyLabelName => DbErrorV::EmptyLabelName,
            DbError::SelfDependency => DbErrorV::SelfDependency,
            DbError::SelfMembership => DbErrorV::SelfMembership,
            DbError::Clock => DbErrorV::Clock,
            DbError::Full => DbErrorV::Full,
            DbError::Corrupt => DbErrorV::Corrupt,
        }
    }
}

/// The text that reports an error, as the tracker prints it.
pub open spec fn error_message(e: DbErrorV) -> Seq<char> {
    match e {
        DbErrorV::EmptyTitle => "title cannot be empty"@,
        DbErrorV::UnknownStatus(s) => "unknown status '"@ + s
            + "'; must be one of: open, in-progress, blocked, closed"@,
        DbErrorV::NotFound(id) => "issue "@ + decimal(id as int) + " not found"@,
        DbErrorV::EmptyLabelName => "label name cannot be empty"@,
        DbErrorV::SelfDependency => "an issue cannot depend on itself"@,
        DbErrorV::SelfMembership => "an issue cannot be attached to itself"@,
        DbErrorV::Clock => "system time before Unix epoch"@,
        DbErrorV::Full => "database or disk is full"@,
        DbErrorV::Corrupt => "the database does not hold a valid issue store"@,
    }
}

impl DbError {
    /// The text that reports the error.
    pub fn message(&self) -> (r: String)
        ensures
            r@ == error_message(self@),
    {
        match self {
            DbError::EmptyTitle => "title cannot be empty".to_owned(),
            DbError::UnknownStatus(s) => {
                let mut m = "unknown status '".to_owned();
                m.append(s.as_str());
                m.append("'; must be one of: open, in-progress, blocked, closed");
                m
            },
            DbError::NotFound(id) => {
                let mut m = "issue ".to_owned();
                m.append(decimal_text(*id).as_str());
                m.append(" not found");
                m
            },
            DbError::EmptyLabelName => "label name cannot be empty".to_owned(),
            DbError::SelfDependency => "an issue cannot depend on itself".to_owned(),
            DbError::SelfMembership => "an issue cannot be attached to itself".to_owned(),
            DbError::Clock => "system time before Unix epoch".to_owned(),
            DbError::Full => "database or disk is full".to_owned(),
            DbError::Corrupt => "the database does not hold a valid issue store".to_owned(),
        }
    }
}

} // verus!
