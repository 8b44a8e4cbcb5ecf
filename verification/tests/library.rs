use issues::cli::{plan_request, plan_update, ArgError, BodySource, UpdateArgs, UpdatePlan};
use issues::db::edit::{
    add_comment_at, add_dependency, add_label, add_membership, append_body_at, close_issue,
    close_issue_at, create_issue, create_issue_at, remove_dependency, remove_label,
    remove_membership, set_anchors_at, update_issue_at, update_status,
};
use issues::db::query::{blocked, frontier, get_issue, has_label_named, list_issues, ready_for_agent};
use issues::db::store::Store;
use issues::db::{AnchorEdit, Change, DbError};
use issues::git::hash_from_output;
use issues::render::{dark_background, paint_label, paint_status, paint_title, parse_u8, plain_len, render_markdown};
use issues::report::{
    format_blocked, format_detail, format_detail_pretty, format_list, join_ids, label_text, padded,
};

const NOW: &str = "2024-05-01T10:00:00Z";

fn seeded() -> Store {
    let mut store = Store::new();
    for title in ["auth", "rate limit", "logging", "deploy"] {
        create_issue_at(&mut store, title, "", None, NOW).unwrap();
    }
    add_dependency(&mut store, 2, 1).unwrap();
    add_dependency(&mut store, 4, 2).unwrap();
    add_dependency(&mut store, 4, 3).unwrap();
    store
}

/// What a terminal shows of the text: everything outside escape sequences.
fn strip_escapes(s: &str) -> String {
    let mut out = String::new();
    let mut in_esc = false;
    for c in s.chars() {
        if in_esc {
            if c == 'm' {
                in_esc = false;
            }
        } else if c == '\x1b' {
            in_esc = true;
        } else {
            out.push(c);
        }
    }
    out
}

fn ids(v: &[issues::db::IssueSummary]) -> Vec<i64> {
    v.iter().map(|s| s.id).collect()
}

#[test]
fn plain_listing_is_exact() {
    let store = seeded();
    let out = format_list(&frontier(&store, None, None), false);
    assert_eq!(
        out,
        "ID  STATUS  LABELS  TITLE\n1   open    -       auth\n3   open    -       logging\n2 issue(s).\n"
    );
}

#[test]
fn listing_widens_columns_to_fit() {
    let mut store = seeded();
    add_label(&mut store, 3, "wayfinder:research").unwrap();
    add_label(&mut store, 3, "needs-triage").unwrap();
    update_status(&mut store, 1, "in-progress").unwrap();
    let out = format_list(&list_issues(&store, None, None, None), false);
    let lines: Vec<&str> = out.lines().collect();
    assert_eq!(lines[0], "ID  STATUS       LABELS                            TITLE");
    assert_eq!(lines[1], "1   in-progress  -                                 auth");
    assert_eq!(lines[3], "3   open         needs-triage, wayfinder:research  logging");
    assert_eq!(lines[5], "4 issue(s).");
}

#[test]
fn styled_listing_colours_status_and_labels() {
    let store = seeded();
    let out = format_list(&frontier(&store, None, None), true);
    assert_eq!(
        out,
        "ID  STATUS  LABELS  TITLE\n1   \x1b[92mopen\x1b[0m    \x1b[96m-\x1b[0m       auth\n3   \x1b[92mopen\x1b[0m    \x1b[96m-\x1b[0m       logging\n2 issue(s).\n"
    );
}

#[test]
fn styled_views_show_the_plain_text() {
    let mut store = seeded();
    add_label(&mut store, 1, "ready-for-agent").unwrap();
    update_status(&mut store, 3, "blocked").unwrap();
    let all = list_issues(&store, None, None, None);
    assert_eq!(strip_escapes(&format_list(&all, true)), format_list(&all, false));
    let b = blocked(&store, None);
    assert_eq!(strip_escapes(&format_blocked(&b, true)), format_blocked(&b, false));
}

#[test]
fn blocked_view_is_exact() {
    let store = seeded();
    let out = format_blocked(&blocked(&store, None), false);
    let expected = format!(
        "ID  TITLE       {:<39}\n2   rate limit  #1 auth (open)\n4   deploy      #2 rate limit (open), #3 logging (open)\n2 blocked issue(s).\n",
        "BLOCKED BY"
    );
    assert_eq!(out, expected);
}

#[test]
fn blocked_view_reports_nothing_blocked() {
    let store = Store::new();
    assert_eq!(format_blocked(&blocked(&store, None), false), "No blocked issues.\n");
}

#[test]
fn detail_is_exact() {
    let mut store = Store::new();
    create_issue_at(&mut store, "Add auth", "Some body text\n\n", None, NOW).unwrap();
    create_issue_at(&mut store, "Other", "", None, NOW).unwrap();
    add_label(&mut store, 1, "needs-triage").unwrap();
    add_dependency(&mut store, 1, 2).unwrap();
    add_membership(&mut store, 1, 2).unwrap();
    add_comment_at(&mut store, 1, "first note", NOW).unwrap();
    let out = format_detail(&get_issue(&store, 1).unwrap());
    assert_eq!(
        out,
        "Issue #1: Add auth\nStatus: open\nLabels: needs-triage\nCreated: 2024-05-01T10:00:00Z\nUpdated: 2024-05-01T10:00:00Z\n\nBlocked by: #2\n\nParents: #2\n\nSome body text\n\nComments\n--------\n#1 2024-05-01T10:00:00Z: first note\n"
    );
    let other = format_detail(&get_issue(&store, 2).unwrap());
    assert_eq!(
        other,
        "Issue #2: Other\nStatus: open\nLabels: -\nCreated: 2024-05-01T10:00:00Z\nUpdated: 2024-05-01T10:00:00Z\nBlocks: #1\nChildren: #1\n"
    );
}

#[test]
fn styled_detail_renders_markdown() {
    let mut store = Store::new();
    create_issue_at(&mut store, "Styled", "Some **bold** text", None, NOW).unwrap();
    add_comment_at(&mut store, 1, "a `code` note", NOW).unwrap();
    let out = format_detail_pretty(&get_issue(&store, 1).unwrap(), true);
    assert!(out.starts_with("\x1b[1mIssue #1: Styled\x1b[0m\nStatus: \x1b[92mopen\x1b[0m\n"));
    assert!(out.contains("Labels: \x1b[96m-\x1b[0m\n"));
    assert!(out.contains("\x1b[1mbold\x1b[0m"));
    assert!(out.contains("\x1b[1mComments\x1b[0m\n--------\n\n#1 2024-05-01T10:00:00Z:\n"));
    assert!(out.contains("code"));
    assert!(!out.ends_with("\n\n"));
}

#[test]
fn markdown_renders_strong_text_in_bold() {
    let out = render_markdown("Some **bold** text", true);
    assert!(out.contains("Some \x1b[1mbold\x1b[0m text"));
    assert_eq!(strip_escapes(&out).trim_end(), "Some bold text");
}

#[test]
fn paint_wraps_text_in_escape_codes() {
    assert_eq!(paint_status("open"), "\x1b[92mopen\x1b[0m");
    assert_eq!(paint_status("in-progress"), "\x1b[93min-progress\x1b[0m");
    assert_eq!(paint_status("blocked"), "\x1b[91mblocked\x1b[0m");
    assert_eq!(paint_status("closed"), "\x1b[90mclosed\x1b[0m");
    assert_eq!(paint_status("other"), "other");
    assert_eq!(paint_label("x"), "\x1b[96mx\x1b[0m");
    assert_eq!(paint_title("T"), "\x1b[1mT\x1b[0m");
}

#[test]
fn painting_keeps_the_visible_width() {
    for text in ["open", "in-progress", "", "naïve"] {
        assert_eq!(plain_len(&paint_status(text)), plain_len(text));
        assert_eq!(plain_len(&paint_label(text)), text.chars().count());
    }
    assert_eq!(padded(paint_status("open"), 6), "\x1b[92mopen\x1b[0m  ");
    assert_eq!(padded("long text".to_string(), 3), "long text");
}

#[test]
fn labels_and_ids_are_joined_with_commas() {
    assert_eq!(label_text(&vec![]), "-");
    assert_eq!(label_text(&vec!["a".to_string(), "b".to_string()]), "a, b");
    assert_eq!(join_ids(&vec![]), "");
    assert_eq!(join_ids(&vec![3, -1, 12]), "#3, #-1, #12");
}

#[test]
fn background_is_read_from_colorfgbg() {
    assert!(dark_background(None));
    assert!(dark_background(Some("15;0")));
    assert!(!dark_background(Some("0;15")));
    assert!(!dark_background(Some("0;8")));
    assert!(dark_background(Some("15")));
    assert!(dark_background(Some("15;x")));
    assert!(dark_background(Some("15;7;1")));
    assert!(dark_background(Some("0;300")));
    assert!(!dark_background(Some("0;+12")));
}

#[test]
fn bytes_are_parsed_as_from_str_does() {
    for text in ["0", "15", "+7", "007", "255", "", "+", "-1", "256", "1 ", "x"] {
        assert_eq!(parse_u8(text), text.parse::<u8>().ok(), "{text}");
    }
}

#[test]
fn git_output_is_trimmed() {
    assert_eq!(hash_from_output("abc123\n"), Some("abc123".to_string()));
    assert_eq!(hash_from_output(" \n"), None);
}

fn update_args() -> UpdateArgs {
    UpdateArgs {
        id: 1,
        status: None,
        title: None,
        body: None,
        body_file: None,
        append_body: None,
        append_body_file: None,
        opened_at: None,
        resolved_by: None,
        clear_opened_at: false,
        clear_resolved_by: false,
    }
}

#[test]
fn update_options_are_checked() {
    let mut a = update_args();
    assert!(matches!(plan_update(&a), Err(ArgError::NothingToUpdate)));
    a.status = Some("closed".to_string());
    assert!(matches!(plan_update(&a), Ok(UpdatePlan::SetStatus(ref s)) if s == "closed"));
    a.title = Some("t".to_string());
    assert!(matches!(plan_update(&a), Err(ArgError::StatusWithEdits)));
    let mut a = update_args();
    a.body = Some("b".to_string());
    a.body_file = Some("f".to_string());
    assert!(matches!(plan_update(&a), Err(ArgError::BodyConflict)));
    let mut a = update_args();
    a.append_body = Some("b".to_string());
    a.append_body_file = Some("f".to_string());
    assert!(matches!(plan_update(&a), Err(ArgError::AppendConflict)));
    let mut a = update_args();
    a.body = Some("b".to_string());
    a.append_body = Some("c".to_string());
    assert!(matches!(plan_update(&a), Err(ArgError::ReplaceAppendConflict)));
    let mut a = update_args();
    a.title = Some("t".to_string());
    a.body_file = Some("f".to_string());
    assert!(matches!(
        plan_update(&a),
        Ok(UpdatePlan::Edit { title: Some(ref t), body: Some(BodySource::File(ref p)) }) if t == "t" && p == "f"
    ));
    let mut a = update_args();
    a.append_body = Some("more".to_string());
    assert!(matches!(plan_update(&a), Ok(UpdatePlan::Append(BodySource::Inline(ref t))) if t == "more"));
    assert_eq!(
        ArgError::NothingToUpdate.message(),
        "nothing to update; provide --status, --title, --body, --body-file, --append-body, or --append-body-file"
    );
}

#[test]
fn errors_read_as_the_tracker_prints_them() {
    assert_eq!(DbError::NotFound(42).message(), "issue 42 not found");
    assert_eq!(
        DbError::UnknownStatus("bogus".to_string()).message(),
        "unknown status 'bogus'; must be one of: open, in-progress, blocked, closed"
    );
    assert_eq!(DbError::SelfDependency.message(), "an issue cannot depend on itself");
    assert_eq!(DbError::EmptyTitle.message(), "title cannot be empty");
}

#[test]
fn each_edit_error_has_its_input() {
    let mut store = seeded();
    assert!(matches!(update_status(&mut store, 9, "open"), Err(DbError::NotFound(9))));
    assert!(matches!(update_status(&mut store, 1, "done"), Err(DbError::UnknownStatus(_))));
    assert!(matches!(add_label(&mut store, 1, "  "), Err(DbError::EmptyLabelName)));
    assert!(matches!(add_dependency(&mut store, 1, 9), Err(DbError::NotFound(9))));
    assert!(matches!(add_membership(&mut store, 1, 1), Err(DbError::SelfMembership)));
    assert!(matches!(update_issue_at(&mut store, 1, Some(" "), None, NOW), Err(DbError::EmptyTitle)));
    assert!(matches!(close_issue(&mut store, 9, None), Err(DbError::NotFound(9))));
}

#[test]
fn edits_report_their_changes() {
    let mut store = Store::new();
    store.take_changes();
    create_issue_at(&mut store, "t", "", None, NOW).unwrap();
    add_label(&mut store, 1, "x").unwrap();
    let changes = store.take_changes();
    assert_eq!(changes.len(), 3);
    assert!(matches!(changes[0], Change::InsertIssue(ref i) if i.id == 1 && i.title == "t"));
    assert!(matches!(changes[1], Change::InsertLabel(ref l) if l.id == 1 && l.name == "x"));
    assert!(matches!(changes[2], Change::InsertLink { issue_id: 1, label_id: 1 }));
    assert!(store.take_changes().is_empty());
}

#[test]
fn created_issue_gets_the_clock_time() {
    let mut store = Store::new();
    let issue = create_issue(&mut store, "t", "", None).unwrap();
    assert_eq!(issue.created_at.len(), 20);
    assert!(issue.created_at.ends_with('Z'));
    assert_eq!(&issue.created_at[10..11], "T");
    assert_eq!(issue.created_at, issue.updated_at);
    assert_eq!(issue.status, "open");
}

#[test]
fn body_edits_replace_and_append() {
    let mut store = Store::new();
    create_issue_at(&mut store, "t", "first", None, NOW).unwrap();
    let i = append_body_at(&mut store, 1, "second", NOW).unwrap();
    assert_eq!(i.body, "first\nsecond");
    let i = update_issue_at(&mut store, 1, Some("new"), Some("body\n"), NOW).unwrap();
    assert_eq!((i.title.as_str(), i.body.as_str()), ("new", "body\n"));
    let i = append_body_at(&mut store, 1, "more", NOW).unwrap();
    assert_eq!(i.body, "body\nmore");
}

#[test]
fn membership_never_blocks() {
    let mut store = seeded();
    let before: Vec<i64> = blocked(&store, None).iter().map(|b| b.id).collect();
    assert!(add_membership(&mut store, 3, 1).unwrap());
    let after: Vec<i64> = blocked(&store, None).iter().map(|b| b.id).collect();
    assert_eq!(before, after);
    assert_eq!(before, vec![2, 4]);
}

#[test]
fn frontier_excludes_parents_and_scopes_to_a_map() {
    let mut store = seeded();
    assert!(add_membership(&mut store, 3, 1).unwrap());
    assert_eq!(ids(&frontier(&store, None, None)), Vec::<i64>::new());
    assert_eq!(ids(&frontier(&store, None, Some(1))), vec![3]);
}

#[test]
fn frontier_and_blocked_are_disjoint() {
    let store = seeded();
    let f = ids(&frontier(&store, None, None));
    let b: Vec<i64> = blocked(&store, None).iter().map(|b| b.id).collect();
    assert_eq!(f, vec![1, 3]);
    assert!(f.iter().all(|id| !b.contains(id)));
}

#[test]
fn closing_a_dependency_unblocks_its_dependents() {
    let mut store = seeded();
    close_issue(&mut store, 1, None).unwrap();
    let b: Vec<i64> = blocked(&store, None).iter().map(|b| b.id).collect();
    assert_eq!(b, vec![4]);
    assert_eq!(ids(&frontier(&store, None, None)), vec![2, 3]);
    assert!(get_issue(&store, 1).unwrap().issue.status == "closed");
}

#[test]
fn ready_queue_holds_open_issues_labelled_ready() {
    let mut store = seeded();
    add_label(&mut store, 1, "ready-for-agent").unwrap();
    add_label(&mut store, 4, "ready-for-agent").unwrap();
    add_label(&mut store, 2, "ready-for-agent").unwrap();
    update_status(&mut store, 2, "in-progress").unwrap();
    assert_eq!(ids(&ready_for_agent(&store)), vec![1, 4]);
}

#[test]
fn label_removal_undoes_labelling() {
    let mut store = seeded();
    assert!(add_label(&mut store, 1, " needs-info ").unwrap());
    assert!(has_label_named(&store, 1, "needs-info"));
    assert!(remove_label(&mut store, 1, "needs-info").unwrap());
    assert!(!has_label_named(&store, 1, "needs-info"));
}

#[test]
fn dependency_and_membership_removal_undo_adding() {
    let mut store = seeded();
    assert!(remove_dependency(&mut store, 2, 1).unwrap());
    assert!(!remove_dependency(&mut store, 2, 1).unwrap());
    assert!(get_issue(&store, 2).unwrap().blocked_by.is_empty());
    assert!(add_membership(&mut store, 2, 3).unwrap());
    assert!(!add_membership(&mut store, 2, 3).unwrap());
    assert!(remove_membership(&mut store, 2, 3).unwrap());
    assert!(get_issue(&store, 2).unwrap().parents.is_empty());
}

#[test]
fn created_issue_comes_last_in_the_listing() {
    let mut store = seeded();
    let issue = create_issue_at(&mut store, "fifth", "", None, NOW).unwrap();
    assert_eq!(issue.id, 5);
    let all = list_issues(&store, None, None, None);
    assert_eq!(ids(&all), vec![1, 2, 3, 4, 5]);
    assert_eq!(all[4].title, "fifth");
}

#[test]
fn commit_anchors_are_recorded_and_shown() {
    let mut store = Store::new();
    let issue = create_issue_at(&mut store, "t", "", Some("abc123"), NOW).unwrap();
    assert_eq!(issue.opened_at.as_deref(), Some("abc123"));
    assert_eq!(issue.resolved_by, None);
    let closed = close_issue_at(&mut store, 1, Some("def456"), "2024-05-02T10:00:00Z").unwrap();
    assert_eq!(closed.status, "closed");
    assert_eq!(closed.resolved_by.as_deref(), Some("def456"));
    assert_eq!(closed.opened_at.as_deref(), Some("abc123"));
    let out = format_detail(&get_issue(&store, 1).unwrap());
    assert_eq!(
        out,
        "Issue #1: t\nStatus: closed\nLabels: -\nCreated: 2024-05-01T10:00:00Z\nUpdated: 2024-05-02T10:00:00Z\nOpened at: abc123\nResolved by: def456\n"
    );
    let changes = store.take_changes();
    assert_eq!(changes.len(), 3);
    assert!(matches!(changes[2], Change::SetAnchors { id: 1, resolved_by: Some(ref h), .. } if h == "def456"));
}

#[test]
fn commit_anchors_can_be_set_and_cleared() {
    let mut store = Store::new();
    create_issue_at(&mut store, "t", "", None, NOW).unwrap();
    let i = set_anchors_at(&mut store, 1, AnchorEdit::Replace("aaa".to_string()), AnchorEdit::Keep, NOW).unwrap();
    assert_eq!((i.opened_at.as_deref(), i.resolved_by.as_deref()), (Some("aaa"), None));
    let i = set_anchors_at(&mut store, 1, AnchorEdit::Clear, AnchorEdit::Replace("bbb".to_string()), NOW).unwrap();
    assert_eq!((i.opened_at.as_deref(), i.resolved_by.as_deref()), (None, Some("bbb")));
    let i = close_issue_at(&mut store, 1, None, NOW).unwrap();
    assert_eq!(i.resolved_by.as_deref(), Some("bbb"));
    assert!(matches!(
        set_anchors_at(&mut store, 7, AnchorEdit::Keep, AnchorEdit::Clear, NOW),
        Err(DbError::NotFound(7))
    ));
}

#[test]
fn anchor_options_are_checked() {
    let mut a = update_args();
    a.opened_at = Some("x".to_string());
    a.clear_opened_at = true;
    assert!(matches!(plan_request(&a), Err(ArgError::OpenedAtConflict)));
    let mut a = update_args();
    a.resolved_by = Some("x".to_string());
    a.clear_resolved_by = true;
    assert!(matches!(plan_request(&a), Err(ArgError::ResolvedByConflict)));
    let mut a = update_args();
    a.clear_resolved_by = true;
    match plan_request(&a) {
        Ok(q) => {
            assert!(q.plan.is_none());
            assert!(matches!(q.opened_at, AnchorEdit::Keep));
            assert!(matches!(q.resolved_by, AnchorEdit::Clear));
        }
        Err(_) => panic!("anchor options alone are an update"),
    }
    let mut a = update_args();
    a.status = Some("open".to_string());
    a.opened_at = Some("h".to_string());
    match plan_request(&a) {
        Ok(q) => {
            assert!(matches!(q.plan, Some(UpdatePlan::SetStatus(ref s)) if s == "open"));
            assert!(matches!(q.opened_at, AnchorEdit::Replace(ref h) if h == "h"));
        }
        Err(_) => panic!("status and anchors go together"),
    }
    assert!(matches!(plan_request(&update_args()), Err(ArgError::NothingToUpdate)));
}

#[test]
fn created_issue_reads_back_bare() {
    let mut store = seeded();
    let issue = create_issue_at(&mut store, "fresh", "b", None, NOW).unwrap();
    let d = get_issue(&store, issue.id).unwrap();
    assert_eq!((d.issue.id, d.issue.title.as_str(), d.issue.body.as_str()), (5, "fresh", "b"));
    assert!(d.labels.is_empty() && d.comments.is_empty());
    assert!(d.blocked_by.is_empty() && d.blocks.is_empty());
    assert!(d.parents.is_empty() && d.children.is_empty());
}

#[test]
fn closing_keeps_the_rest_of_the_frontier() {
    let mut store = seeded();
    create_issue_at(&mut store, "other", "", None, NOW).unwrap();
    assert_eq!(ids(&frontier(&store, None, None)), vec![1, 3, 5]);
    close_issue_at(&mut store, 3, Some("abc"), NOW).unwrap();
    assert_eq!(ids(&frontier(&store, None, None)), vec![1, 5]);
    close_issue_at(&mut store, 1, None, NOW).unwrap();
    assert_eq!(ids(&frontier(&store, None, None)), vec![2, 5]);
}

#[test]
fn rows_must_refer_to_numbered_issues() {
    let ok = Store::from_tables(vec![], vec![], vec![], vec![], vec![], vec![], 0, 0, 0);
    assert!(ok.is_ok());
    let dangling = Store::from_tables(vec![], vec![], vec![], vec![], vec![(1, 2)], vec![], 0, 0, 0);
    assert!(matches!(dangling, Err(DbError::Corrupt)));
    let dangling = Store::from_tables(vec![], vec![], vec![(3, 1)], vec![], vec![], vec![], 2, 1, 0);
    assert!(matches!(dangling, Err(DbError::Corrupt)));
}

#[test]
fn open_issues_are_on_the_frontier_or_blocked() {
    let mut store = seeded();
    update_status(&mut store, 3, "in-progress").unwrap();
    let f = ids(&frontier(&store, None, None));
    let b: Vec<i64> = blocked(&store, None).iter().map(|b| b.id).collect();
    let mut all: Vec<i64> = f.iter().chain(b.iter()).copied().collect();
    all.sort();
    let open: Vec<i64> = list_issues(&store, Some("open"), None, None).iter().map(|s| s.id).collect();
    assert_eq!(all, open);
    assert_eq!(open, vec![1, 2, 4]);
}

#[test]
fn links_must_name_labels() {
    let issue = |id: i64| issues::db::Issue {
        id,
        title: "t".to_string(),
        body: String::new(),
        status: "open".to_string(),
        created_at: NOW.to_string(),
        updated_at: NOW.to_string(),
        opened_at: None,
        resolved_by: None,
    };
    let label = issues::db::Label { id: 1, name: "x".to_string() };
    let ok = Store::from_tables(vec![issue(1)], vec![label], vec![(1, 1)], vec![], vec![], vec![], 1, 1, 0);
    assert!(ok.is_ok());
    let dangling = Store::from_tables(vec![issue(1)], vec![], vec![(1, 1)], vec![], vec![], vec![], 1, 1, 0);
    assert!(matches!(dangling, Err(DbError::Corrupt)));
}

#[test]
fn clock_error_reads_as_the_clock_panic_did() {
    assert_eq!(DbError::Clock.message(), "system time before Unix epoch");
}

#[test]
fn colour_only_on_a_terminal_without_no_color() {
    assert!(issues::render::colorize(true, false));
    assert!(!issues::render::colorize(false, false));
    assert!(!issues::render::colorize(true, true));
    assert!(!issues::render::colorize(false, true));
}

#[test]
fn refused_requests_are_answered_before_the_clock() {
    let mut store = Store::new();
    assert!(matches!(update_status(&mut store, 7, "bogus"), Err(DbError::UnknownStatus(_))));
    assert!(matches!(update_status(&mut store, 7, "open"), Err(DbError::NotFound(7))));
    assert!(matches!(create_issue(&mut store, " ", "", None), Err(DbError::EmptyTitle)));
    assert!(matches!(close_issue(&mut store, 7, None), Err(DbError::NotFound(7))));
    assert!(store.take_changes().is_empty());
}
