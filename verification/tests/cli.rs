use issues::cli::{
    comment_body, create_body, db_path, instructions_path, ArgError, BodySource, CommentArgs,
    CreateArgs,
};
use issues::db::edit::{
    add_comment, add_dependency, add_label, create_issue, remove_label, update_status,
};
use issues::db::query::{blocked, frontier, get_issue, list_issues, ready_for_agent};
use issues::db::store::Store;
use issues::db::DbError;
use issues::instructions::ISSUE_TRACKER_DOC;
use issues::report::{format_blocked, format_detail, format_list};

fn detail(store: &Store, id: i64) -> String {
    format_detail(&get_issue(store, id).unwrap())
}

fn seed_wayfinder(store: &mut Store) {
    for title in ["auth", "rate limit", "logging", "deploy"] {
        create_issue(store, title, "", None).unwrap();
    }
    // 2 depends on 1; 4 depends on 2 and 3
    add_dependency(store, 2, 1).unwrap();
    add_dependency(store, 4, 2).unwrap();
    add_dependency(store, 4, 3).unwrap();
}

#[test]
fn create_and_get_issue() {
    let args = CreateArgs {
        title: "Add auth".to_string(),
        body_file: Some("body.md".to_string()),
        body: None,
        opened_at: None,
    };
    assert!(matches!(create_body(&args), Ok(BodySource::File(ref p)) if p == "body.md"));
    let mut store = Store::new();
    let issue = create_issue(&mut store, &args.title, "Some body text", None).unwrap();
    assert_eq!(format!("Created issue #{}: {}", issue.id, issue.title), "Created issue #1: Add auth");
    let out = detail(&store, 1);
    assert!(out.contains("Issue #1: Add auth"));
    assert!(out.contains("Status: open"));
    assert!(out.contains("Some body text"));
}

#[test]
fn create_with_inline_body() {
    let args = CreateArgs {
        title: "Inline".to_string(),
        body_file: None,
        body: Some("hello".to_string()),
        opened_at: None,
    };
    let body = match create_body(&args) {
        Ok(BodySource::Inline(t)) => t,
        _ => panic!("expected an inline body"),
    };
    let mut store = Store::new();
    create_issue(&mut store, &args.title, &body, None).unwrap();
    assert!(detail(&store, 1).contains("hello"));
}

#[test]
fn create_rejects_mutually_exclusive_body_flags() {
    let args = CreateArgs {
        title: "X".to_string(),
        body_file: Some("b.md".to_string()),
        body: Some("a".to_string()),
        opened_at: None,
    };
    match create_body(&args) {
        Err(e) => {
            assert_eq!(e, ArgError::BodyConflict);
            assert!(e.message().contains("mutually exclusive"));
        }
        Ok(_) => panic!("expected a refusal"),
    }
}

#[test]
fn create_requires_title() {
    let mut store = Store::new();
    assert!(matches!(create_issue(&mut store, "", "body", None), Err(DbError::EmptyTitle)));
    assert!(matches!(create_issue(&mut store, "   ", "body", None), Err(DbError::EmptyTitle)));
    assert!(get_issue(&store, 1).is_none());
}

#[test]
fn list_empty_reports_no_issues() {
    let store = Store::new();
    let out = format_list(&list_issues(&store, None, None, None), false);
    assert!(out.contains("No issues found."));
}

#[test]
fn list_filters_by_status_and_label() {
    let mut store = Store::new();
    for title in ["one", "two", "three"] {
        create_issue(&mut store, title, "", None).unwrap();
    }
    assert!(add_label(&mut store, 1, "ready-for-agent").unwrap());
    update_status(&mut store, 3, "blocked").unwrap();

    let out = format_list(&list_issues(&store, Some("blocked"), None, None), false);
    assert!(out.contains("three"));
    assert!(out.contains("1 issue(s)."));

    let out = format_list(&list_issues(&store, None, Some("ready-for-agent"), None), false);
    assert!(out.contains("one"));
    assert!(out.contains("1 issue(s)."));
}

#[test]
fn update_status_and_validate() {
    let mut store = Store::new();
    create_issue(&mut store, "t", "", None).unwrap();
    let issue = update_status(&mut store, 1, "in-progress").unwrap();
    let msg = format!("Issue #{}: {} is now {}", issue.id, issue.title, issue.status);
    assert!(msg.contains("is now in-progress"));
    match update_status(&mut store, 1, "bogus") {
        Err(e) => assert!(e.message().contains("unknown status")),
        Ok(_) => panic!("expected a refusal"),
    }
}

#[test]
fn label_add_remove() {
    let mut store = Store::new();
    create_issue(&mut store, "t", "", None).unwrap();
    assert!(add_label(&mut store, 1, "needs-triage").unwrap());
    assert!(!add_label(&mut store, 1, "needs-triage").unwrap());
    assert!(remove_label(&mut store, 1, "needs-triage").unwrap());
    assert!(!remove_label(&mut store, 1, "needs-triage").unwrap());
}

#[test]
fn close_issue() {
    let mut store = Store::new();
    create_issue(&mut store, "t", "", None).unwrap();
    let issue = issues::db::edit::close_issue(&mut store, 1, None).unwrap();
    assert!(format!("Closed issue #{}: {}", issue.id, issue.title).contains("Closed issue #1"));
    assert!(detail(&store, 1).contains("Status: closed"));
}

#[test]
fn comments_show_on_get() {
    let mut store = Store::new();
    create_issue(&mut store, "t", "", None).unwrap();
    let args = CommentArgs { id: 1, body: Some("first note".to_string()), body_file: None };
    let body = match comment_body(&args) {
        Ok(BodySource::Inline(t)) => t,
        _ => panic!("expected an inline body"),
    };
    let comment = add_comment(&mut store, 1, &body).unwrap();
    assert!(format!("Added comment #{}", comment.id).contains("Added comment #1"));
    assert!(detail(&store, 1).contains("first note"));
}

#[test]
fn dependencies_render_on_get() {
    let mut store = Store::new();
    for title in ["first", "second"] {
        create_issue(&mut store, title, "", None).unwrap();
    }
    add_dependency(&mut store, 2, 1).unwrap();
    assert!(detail(&store, 2).contains("Blocked by: #1"));
    assert!(detail(&store, 1).contains("Blocks: #2"));
    add_dependency(&mut store, 2, 1).unwrap();
    assert_eq!(get_issue(&store, 2).unwrap().blocked_by, vec![1]);
}

#[test]
fn depends_rejects_self_dependency() {
    let mut store = Store::new();
    create_issue(&mut store, "t", "", None).unwrap();
    match add_dependency(&mut store, 1, 1) {
        Err(e) => assert!(e.message().contains("cannot depend on itself")),
        Ok(_) => panic!("expected a refusal"),
    }
}

#[test]
fn missing_issue_errors() {
    let mut store = Store::new();
    assert!(get_issue(&store, 42).is_none());
    match add_comment(&mut store, 42, "x") {
        Err(e) => assert!(e.message().contains("issue 42 not found")),
        Ok(_) => panic!("expected a refusal"),
    }
}

#[test]
fn creates_db_in_scratch_dir() {
    assert_eq!(db_path(&None), ".scratch/issues.db");
    assert_eq!(db_path(&Some("x.db".to_string())), "x.db");
}

#[test]
fn frontier_lists_open_unblocked_issues() {
    let mut store = Store::new();
    seed_wayfinder(&mut store);
    let out = format_list(&frontier(&store, None, None), false);
    assert!(out.contains("auth"));
    assert!(out.contains("logging"));
    assert!(out.contains("2 issue(s)."));
    assert!(!out.contains("rate limit"));
    assert!(!out.contains("deploy"));

    // closing the first dep makes "rate limit" takeable
    issues::db::edit::close_issue(&mut store, 1, None).unwrap();
    let out = format_list(&frontier(&store, None, None), false);
    assert!(out.contains("rate limit"));
    assert!(!out.contains("deploy"));
}

#[test]
fn frontier_filters_by_label() {
    let mut store = Store::new();
    seed_wayfinder(&mut store);
    add_label(&mut store, 1, "wayfinder:research").unwrap();
    let out = format_list(&frontier(&store, Some("wayfinder:research"), None), false);
    assert!(out.contains("auth"));
    assert!(out.contains("1 issue(s)."));
}

#[test]
fn blocked_lists_unresolved_dependencies() {
    let mut store = Store::new();
    seed_wayfinder(&mut store);
    let out = format_blocked(&blocked(&store, None), false);
    assert!(out.contains("rate limit"));
    assert!(out.contains("#1 auth (open)"));
    assert!(out.contains("#2 rate limit (open)"));
    assert!(out.contains("2 blocked issue(s)."));
}

#[test]
fn ready_shows_ready_for_agent_only() {
    let mut store = Store::new();
    seed_wayfinder(&mut store);
    add_label(&mut store, 1, "ready-for-agent").unwrap();
    add_label(&mut store, 2, "ready-for-agent").unwrap();
    update_status(&mut store, 2, "in-progress").unwrap();
    let out = format_list(&ready_for_agent(&store), false);
    assert!(out.contains("auth"));
    assert!(out.contains("1 issue(s)."));
    // in-progress but labelled ready should not appear in the grab queue
    assert!(!out.contains("rate limit"));
}

#[test]
fn agent_instructions_writes_doc() {
    assert_eq!(instructions_path(&None), "docs/agents/issue-tracker.md");
    assert!(ISSUE_TRACKER_DOC.contains("issues list"));
    assert!(ISSUE_TRACKER_DOC.contains("ready-for-agent"));
    assert!(ISSUE_TRACKER_DOC.contains("issues frontier"));
}
