//! The command line: the commands and their arguments as plain values, and
//! the checks that turn a command's body and edit options into one request.

use vstd::prelude::*;

use crate::db::{AnchorEdit, AnchorEditV};
use crate::text::{opt_clone, opt_view};

verus! {

/// The whole command line: where the store is, whether to style the output
/// for a terminal, and the command.
pub struct Cli {
    pub db: Option<String>,
    pub pretty: bool,
    pub command: Command,
}

/// The commands.
pub enum Command {
    Create(CreateArgs),
    List { status: Option<String>, label: Option<String>, parent: Option<i64> },
    Get { id: i64 },
    Update(UpdateArgs),
    Frontier { label: Option<String>, map: Option<i64> },
    Blocked { label: Option<String> },
    Ready,
    AgentInstructions { output: Option<String> },
    Label { id: i64, action: LabelAction },
    Close { id: i64, comment: Option<String>, resolved_by: Option<String> },
    Comment(CommentArgs),
    Depends { action: DependsAction },
    Attach(MembershipArgs),
    Detach(MembershipArgs),
}

/// Adding or removing blocking edges.
pub enum DependsAction {
    Add(DependsArgs),
    Remove(DependsArgs),
}

/// An issue and the issues it depends on.
pub struct DependsArgs {
    pub id: i64,
    pub on: Vec<i64>,
}

/// An issue and the parents it is attached to or detached from.
pub struct MembershipArgs {
    pub id: i64,
    pub parent: Vec<i64>,
}

/// A new issue: its title, its body, inline or from a file, and the commit
/// it is opened at when given by hand.
pub struct CreateArgs {
    pub title: String,
    pub body_file: Option<String>,
    pub body: Option<String>,
    pub opened_at: Option<String>,
}

/// An edit of an issue: a new status, or a new title and body, or text
/// appended to the body; and commit anchors set or cleared.
pub struct UpdateArgs {
    pub id: i64,
    pub status: Option<String>,
    pub title: Option<String>,
    pub body: Option<String>,
    pub body_file: Option<String>,
    pub append_body: Option<String>,
    pub append_body_file: Option<String>,
    pub opened_at: Option<String>,
    pub resolved_by: Option<String>,
    pub clear_opened_at: bool,
    pub clear_resolved_by: bool,
}

/// Attaching or detaching a label.
pub enum LabelAction {
    Add { name: String },
    Remove { name: String },
}

/// A comment on an issue: its body, inline or from a file.
pub struct CommentArgs {
    pub id: i64,
    pub body: Option<String>,
    pub body_file: Option<String>,
}

/// Where a body comes from: the text itself or the path of a file.
pub enum BodySource {
    Inline(String),
    File(String),
}

/// The view of a [`BodySource`].
pub enum BodySourceV {
    Inline(Seq<char>),
    File(Seq<char>),
}

impl View for BodySource {
    type V = BodySourceV;

    open spec fn view(&self) -> BodySourceV {
        match self {
            BodySource::Inline(t) => BodySourceV::Inline(t@),
            BodySource::File(p) => BodySourceV::File(p@),
        }
    }
}

/// What an update asks for.
pub enum UpdatePlan {
    SetStatus(String),
    Edit { title: Option<String>, body: Option<BodySource> },
    Append(BodySource),
}

/// The view of an [`UpdatePlan`].
pub enum UpdatePlanV {
    SetStatus(Seq<char>),
    Edit { title: Option<Seq<char>>, body: Option<BodySourceV> },
    Append(BodySourceV),
}

impl View for UpdatePlan {
    type V = UpdatePlanV;

    open spec fn view(&self) -> UpdatePlanV {
        match self {
            UpdatePlan::SetStatus(s) => UpdatePlanV::SetStatus(s@),
            UpdatePlan::Edit { title, body } => UpdatePlanV::Edit {
                title: opt_view(*title),
                body: match body {
                    Some(b) => Some(b@),
                    None => None,
                },
            },
            UpdatePlan::Append(b) => UpdatePlanV::Append(b@),
        }
    }
}

/// A combination of options that the commands refuse.
#[derive(Debug, PartialEq, Eq, Structural, Clone, Copy)]
pub enum ArgError {
    BodyConflict,
    AppendConflict,
    ReplaceAppendConflict,
    StatusWithEdits,
    NothingToUpdate,
    MissingBody,
    OpenedAtConflict,
    ResolvedByConflict,
}

/// What the command says when it refuses the options.
pub open spec fn arg_error_message(e: ArgError) -> Seq<char> {
    match e {
        ArgError::BodyConflict => "--body and --body-file are mutually exclusive"@,
        ArgError::AppendConflict => "--append-body and --append-body-file are mutually exclusive"@,
        ArgError::ReplaceAppendConflict => "replace and append body options are mutually exclusive"@,
        ArgError::StatusWithEdits => "--status cannot be combined with title or body edits"@,
        ArgError::NothingToUpdate =>
            "nothing to update; provide --status, --title, --body, --body-file, --append-body, or --append-body-file"@,
        ArgError::MissingBody => "provide --body or --body-file"@,
        ArgError::OpenedAtConflict => "--opened-at and --clear-opened-at are mutually exclusive"@,
        ArgError::ResolvedByConflict =>
            "--resolved-by and --clear-resolved-by are mutually exclusive"@,
    }
}

impl ArgError {
    /// What the command says when it refuses the options.
    pub fn message(&self) -> (r: String)
        ensures
            r@ == arg_error_message(*self),
    {
        match self {
            ArgError::BodyConflict => "--body and --body-file are mutually exclusive".to_string(),
            ArgError::AppendConflict =>
                "--append-body and --append-body-file are mutually exclusive".to_string(),
            ArgError::ReplaceAppendConflict =>
                "replace and append body options are mutually exclusive".to_string(),
            ArgError::StatusWithEdits =>
                "--status cannot be combined with title or body edits".to_string(),
            ArgError::NothingToUpdate =>
                "nothing to update; provide --status, --title, --body, --body-file, --append-body, or --append-body-file".to_string(),
            ArgError::MissingBody => "provide --body or --body-file".to_string(),
            ArgError::OpenedAtConflict =>
                "--opened-at and --clear-opened-at are mutually exclusive".to_string(),
            ArgError::ResolvedByConflict =>
                "--resolved-by and --clear-resolved-by are mutually exclusive".to_string(),
        }
    }
}

/// The body of a new issue: from the file when one is given, else the inline
/// text, else empty; both at once are refused.
pub open spec fn create_body_of(body: Option<Seq<char>>, body_file: Option<Seq<char>>) -> Result<BodySourceV, ArgError> {
    match (body, body_file) {
        (Some(_), Some(_)) => Err(ArgError::BodyConflict),
        (_, Some(p)) => Ok(BodySourceV::File(p)),
        (Some(t), None) => Ok(BodySourceV::Inline(t)),
        (None, None) => Ok(BodySourceV::Inline(Seq::empty())),
    }
}

/// Where the body of a new issue comes from.
pub fn create_body(args: &CreateArgs) -> (r: Result<BodySource, ArgError>)
    ensures
        match r {
            Ok(b) => create_body_of(opt_view(args.body), opt_view(args.body_file)) == Ok::<BodySourceV, ArgError>(b@),
            Err(e) => create_body_of(opt_view(args.body), opt_view(args.body_file)) == Err::<BodySourceV, ArgError>(e),
        },
{
    match (&args.body, &args.body_file) {
        (Some(_), Some(_)) => Err(ArgError::BodyConflict),
        (_, Some(p)) => Ok(BodySource::File(p.clone())),
        (Some(t), None) => Ok(BodySource::Inline(t.clone())),
        (None, None) => Ok(BodySource::Inline(String::new())),
    }
}

/// The body of a comment: the inline text or the file; exactly one of them.
pub open spec fn comment_body_of(body: Option<Seq<char>>, body_file: Option<Seq<char>>) -> Result<BodySourceV, ArgError> {
    match (body, body_file) {
        (Some(_), Some(_)) => Err(ArgError::BodyConflict),
        (Some(t), None) => Ok(BodySourceV::Inline(t)),
        (None, Some(p)) => Ok(BodySourceV::File(p)),
        (None, None) => Err(ArgError::MissingBody),
    }
}

/// Where the body of a comment comes from.
pub fn comment_body(args: &CommentArgs) -> (r: Result<BodySource, ArgError>)
    ensures
        match r {
            Ok(b) => comment_body_of(opt_view(args.body), opt_view(args.body_file)) == Ok::<BodySourceV, ArgError>(b@),
            Err(e) => comment_body_of(opt_view(args.body), opt_view(args.body_file)) == Err::<BodySourceV, ArgError>(e),
        },
{
    match (&args.body, &args.body_file) {
        (Some(_), Some(_)) => Err(ArgError::BodyConflict),
        (Some(t), None) => Ok(BodySource::Inline(t.clone())),
        (None, Some(p)) => Ok(BodySource::File(p.clone())),
        (None, None) => Err(ArgError::MissingBody),
    }
}

/// The view of the edit options of an update.
pub struct UpdateArgsV {
    pub status: Option<Seq<char>>,
    pub title: Option<Seq<char>>,
    pub body: Option<Seq<char>>,
    pub body_file: Option<Seq<char>>,
    pub append_body: Option<Seq<char>>,
    pub append_body_file: Option<Seq<char>>,
    pub opened_at: Option<Seq<char>>,
    pub resolved_by: Option<Seq<char>>,
    pub clear_opened_at: bool,
    pub clear_resolved_by: bool,
}

impl View for UpdateArgs {
    type V = UpdateArgsV;

    open spec fn view(&self) -> UpdateArgsV {
        UpdateArgsV {
            status: opt_view(self.status),
            title: opt_view(self.title),
            body: opt_view(self.body),
            body_file: opt_view(self.body_file),
            append_body: opt_view(self.append_body),
            append_body_file: opt_view(self.append_body_file),
            opened_at: opt_view(self.opened_at),
            resolved_by: opt_view(self.resolved_by),
            clear_opened_at: self.clear_opened_at,
            clear_resolved_by: self.clear_resolved_by,
        }
    }
}

/// What an update asks for. A status goes alone. Otherwise a body may come
/// inline or from a file and text to append likewise, never both ways, and
/// never a new body together with appended text; a new body from a file
/// comes first, then a new title or inline body, then appended text from a
/// file, then inline appended text.
pub open spec fn update_plan_of(a: UpdateArgsV) -> Result<UpdatePlanV, ArgError> {
    let edits = a.title is Some || a.body is Some || a.body_file is Some || a.append_body is Some
        || a.append_body_file is Some;
    if a.status is Some {
        if edits {
            Err(ArgError::StatusWithEdits)
        } else {
            Ok(UpdatePlanV::SetStatus(a.status->0))
        }
    } else if a.body is Some && a.body_file is Some {
        Err(ArgError::BodyConflict)
    } else if a.append_body is Some && a.append_body_file is Some {
        Err(ArgError::AppendConflict)
    } else if (a.body is Some || a.body_file is Some) && (a.append_body is Some
        || a.append_body_file is Some) {
        Err(ArgError::ReplaceAppendConflict)
    } else if a.body_file is Some {
        Ok(UpdatePlanV::Edit { title: a.title, body: Some(BodySourceV::File(a.body_file->0)) })
    } else if a.body is Some || a.title is Some {
        Ok(
            UpdatePlanV::Edit {
                title: a.title,
                body: match a.body {
                    Some(t) => Some(BodySourceV::Inline(t)),
                    None => None,
                },
            },
        )
    } else if a.append_body_file is Some {
        Ok(UpdatePlanV::Append(BodySourceV::File(a.append_body_file->0)))
    } else if a.append_body is Some {
        Ok(UpdatePlanV::Append(BodySourceV::Inline(a.append_body->0)))
    } else {
        Err(ArgError::NothingToUpdate)
    }
}

/// What an update asks for, or why its options are refused.
pub fn plan_update(args: &UpdateArgs) -> (r: Result<UpdatePlan, ArgError>)
    ensures
        match r {
            Ok(p) => update_plan_of(args@) == Ok::<UpdatePlanV, ArgError>(p@),
            Err(e) => update_plan_of(args@) == Err::<UpdatePlanV, ArgError>(e),
        },
{
    let edits = args.title.is_some() || args.body.is_some() || args.body_file.is_some()
        || args.append_body.is_some() || args.append_body_file.is_some();
    if let Some(status) = &args.status {
        if edits {
            return Err(ArgError::StatusWithEdits);
        }
        return Ok(UpdatePlan::SetStatus(status.clone()));
    }
    if args.body.is_some() && args.body_file.is_some() {
        return Err(ArgError::BodyConflict);
    }
    if args.append_body.is_some() && args.append_body_file.is_some() {
        return Err(ArgError::AppendConflict);
    }
    if (args.body.is_some() || args.body_file.is_some()) && (args.append_body.is_some()
        || args.append_body_file.is_some()) {
        return Err(ArgError::ReplaceAppendConflict);
    }
    if let Some(p) = &args.body_file {
        return Ok(UpdatePlan::Edit { title: opt_clone(&args.title), body: Some(BodySource::File(p.clone())) });
    }
    if args.body.is_some() || args.title.is_some() {
        let body = match &args.body {
            Some(t) => Some(BodySource::Inline(t.clone())),
            None => None,
        };
        return Ok(UpdatePlan::Edit { title: opt_clone(&args.title), body });
    }
    if let Some(p) = &args.append_body_file {
        return Ok(UpdatePlan::Append(BodySource::File(p.clone())));
    }
    if let Some(t) = &args.append_body {
        return Ok(UpdatePlan::Append(BodySource::Inline(t.clone())));
    }
    Err(ArgError::NothingToUpdate)
}

/// Everything an update asks for: an edit of the status or text, if any, and
/// what happens to each commit anchor.
pub struct UpdateRequest {
    pub plan: Option<UpdatePlan>,
    pub opened_at: AnchorEdit,
    pub resolved_by: AnchorEdit,
}

/// The view of an [`UpdateRequest`].
pub struct UpdateRequestV {
    pub plan: Option<UpdatePlanV>,
    pub opened_at: AnchorEditV,
    pub resolved_by: AnchorEditV,
}

impl View for UpdateRequest {
    type V = UpdateRequestV;

    open spec fn view(&self) -> UpdateRequestV {
        UpdateRequestV {
            plan: match self.plan {
                Some(p) => Some(p@),
                None => None,
            },
            opened_at: self.opened_at@,
            resolved_by: self.resolved_by@,
        }
    }
}

/// What an anchor option asks for: the hash given, a clear, or nothing.
pub open spec fn anchor_edit_of(set: Option<Seq<char>>, clear: bool) -> AnchorEditV {
    match set {
        Some(h) => AnchorEditV::Replace(h),
        None => if clear {
            AnchorEditV::Clear
        } else {
            AnchorEditV::Keep
        },
    }
}

/// What an update asks for. An anchor is either set or cleared, not both.
/// The status, title and body options go as [`update_plan_of`] says, except
/// that anchor options alone are enough of an update.
pub open spec fn update_request_of(a: UpdateArgsV) -> Result<UpdateRequestV, ArgError> {
    if a.opened_at is Some && a.clear_opened_at {
        Err(ArgError::OpenedAtConflict)
    } else if a.resolved_by is Some && a.clear_resolved_by {
        Err(ArgError::ResolvedByConflict)
    } else {
        let opened = anchor_edit_of(a.opened_at, a.clear_opened_at);
        let resolved = anchor_edit_of(a.resolved_by, a.clear_resolved_by);
        let anchors = !(opened is Keep) || !(resolved is Keep);
        match update_plan_of(a) {
            Ok(p) => Ok(UpdateRequestV { plan: Some(p), opened_at: opened, resolved_by: resolved }),
            Err(e) => if e == ArgError::NothingToUpdate && anchors {
                Ok(UpdateRequestV { plan: None, opened_at: opened, resolved_by: resolved })
            } else {
                Err(e)
            },
        }
    }
}

fn anchor_edit(set: &Option<String>, clear: bool) -> (r: AnchorEdit)
    ensures
        r@ == anchor_edit_of(opt_view(*set), clear),
{
    match set {
        Some(h) => AnchorEdit::Replace(h.clone()),
        None => if clear {
            AnchorEdit::Clear
        } else {
            AnchorEdit::Keep
        },
    }
}

/// Everything an update asks for, or why its options are refused.
pub fn plan_request(args: &UpdateArgs) -> (r: Result<UpdateRequest, ArgError>)
    ensures
        match r {
            Ok(q) => update_request_of(args@) == Ok::<UpdateRequestV, ArgError>(q@),
            Err(e) => update_request_of(args@) == Err::<UpdateRequestV, ArgError>(e),
        },
{
    if args.opened_at.is_some() && args.clear_opened_at {
        return Err(ArgError::OpenedAtConflict);
    }
    if args.resolved_by.is_some() && args.clear_resolved_by {
        return Err(ArgError::ResolvedByConflict);
    }
    let opened = anchor_edit(&args.opened_at, args.clear_opened_at);
    let resolved = anchor_edit(&args.resolved_by, args.clear_resolved_by);
    let anchors = args.opened_at.is_some() || args.clear_opened_at || args.resolved_by.is_some()
        || args.clear_resolved_by;
    match plan_update(args) {
        Ok(p) => Ok(UpdateRequest { plan: Some(p), opened_at: opened, resolved_by: resolved }),
        Err(e) => {
            if e == ArgError::NothingToUpdate && anchors {
                Ok(UpdateRequest { plan: None, opened_at: opened, resolved_by: resolved })
            } else {
                Err(e)
            }
        },
    }
}

/// The store's path: the one given, else `.scratch/issues.db`.
pub fn db_path(db: &Option<String>) -> (r: String)
    ensures
        r@ == match opt_view(*db) {
            Some(p) => p,
            None => ".scratch/issues.db"@,
        },
{
    match db {
        Some(p) => p.clone(),
        None => ".scratch/issues.db".to_string(),
    }
}

/// Where the agent instructions go: the path given, else
/// `docs/agents/issue-tracker.md`.
pub fn instructions_path(output: &Option<String>) -> (r: String)
    ensures
        r@ == match opt_view(*output) {
            Some(p) => p,
            None => "docs/agents/issue-tracker.md"@,
        },
{
    match output {
        Some(p) => p.clone(),
        None => "docs/agents/issue-tracker.md".to_string(),
    }
}

} // verus!
