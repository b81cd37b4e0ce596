use retaskable::cache::{ensure_local_list, set_last_synced, upsert_calendar};
use retaskable::clock::Moment;
use retaskable::config::{CaldavConfig, Config, LOCAL_LIST_ID};
use retaskable::db::enqueue_create;
use retaskable::dispatch::{handle_message, needs_settings, Body};
use retaskable::handlers::{
    active_list_href, create, delete_by_uid_inner, delete_first, edit_by_uid_inner, edit_first,
    ingest_item, make_anchor, parse_create, parse_edit, parse_uid, select_source,
    toggle_by_uid_inner, toggle_first, IntakeItem,
};
use retaskable::intake::{is_intake_file, take_in, Verdict};
use retaskable::listing::{get_cached_task_by_uid, list_tasks, pending_marks};
use retaskable::messages::Ask;
use retaskable::queue::FlushSummary;
use retaskable::reconcile::compose_sync_response;
use retaskable::screen::{
    clear_errored_reply, jump_command, list_calendars, open_note, parse_transfer, show_pending,
    show_tasks, transfer_task, wants_completed,
};
use retaskable::store::{PendingOp, Store, TaskRow};

fn at() -> Moment {
    Moment { stamp: "20260601T120000Z".to_string(), secs: 1_700_000_000 }
}

fn with_calendar() -> Store {
    let mut store = Store::new();
    upsert_calendar(&mut store, "/cal/", "Cal");
    store
}

fn seed_op(store: &mut Store, op_type: &str, uid: &str, strikes: i64, last_error: Option<&str>, errored: i64) {
    store.last_op_id += 1;
    store.ops.push(PendingOp {
        id: store.last_op_id,
        op_type: op_type.to_string(),
        target_uid: uid.to_string(),
        target_calendar_href: "/cal/".to_string(),
        payload: None,
        enqueued_at: 1700000000,
        error_count: strikes,
        last_error: last_error.map(|s| s.to_string()),
        errored,
    });
}

fn remote(calendar: &str) -> Config {
    Config {
        active_list: Some(calendar.to_string()),
        caldav: CaldavConfig {
            provider: "generic".to_string(),
            base_url: "https://a".to_string(),
            username: "u".to_string(),
            app_password: "p".to_string(),
            calendar_href: Some(calendar.to_string()),
            calendar: None,
        },
    }
}

#[test]
fn toggle_by_uid_inner_flips_completed_and_marks_queued() {
    let mut store = with_calendar();
    enqueue_create(&mut store, "/cal/", "uid-1", "Buy milk").unwrap();
    let v = toggle_by_uid_inner(&mut store, "/cal/", "uid-1", &at()).expect("toggle");
    assert_eq!(v.uid, "uid-1");
    assert_eq!(v.completed, true);
    assert_eq!(v.mark, "*");
    let marks = pending_marks(&store, "/cal/");
    assert_eq!(marks.get("uid-1"), Some(false));
}

#[test]
fn toggle_by_uid_inner_unknown_uid_errors() {
    let mut store = Store::new();
    assert!(toggle_by_uid_inner(&mut store, "/cal/", "nope", &at()).is_err());
}

#[test]
fn edit_by_uid_inner_replaces_summary_and_marks_queued() {
    let mut store = with_calendar();
    enqueue_create(&mut store, "/cal/", "uid-1", "Buy milk").unwrap();
    let out = edit_by_uid_inner(&mut store, "/cal/", "uid-1", "Buy oat milk", None, &at())
        .expect("edit");
    assert!(out.contains("Buy milk"), "old summary in status: {out}");
    assert!(out.contains("Buy oat milk"), "new summary in status: {out}");
    let task = get_cached_task_by_uid(&store, "/cal/", "uid-1").expect("cache row");
    assert_eq!(task.summary, "Buy oat milk");
    let marks = pending_marks(&store, "/cal/");
    assert_eq!(marks.get("uid-1"), Some(false));
}

#[test]
fn edit_by_uid_inner_unknown_uid_errors() {
    let mut store = Store::new();
    assert!(edit_by_uid_inner(&mut store, "/cal/", "nope", "x", None, &at()).is_err());
}

#[test]
fn delete_by_uid_inner_tombstones_and_drops_from_list() {
    let mut store = with_calendar();
    enqueue_create(&mut store, "/cal/", "uid-1", "Buy milk").unwrap();
    let out = delete_by_uid_inner(&mut store, "/cal/", "uid-1", &at()).expect("delete");
    assert!(out.contains("Buy milk"), "summary in status: {out}");
    let tasks = list_tasks(&store, "/cal/");
    assert!(
        tasks.iter().all(|t| t.uid != "uid-1"),
        "deleted task should not appear in the list"
    );
}

#[test]
fn delete_by_uid_inner_unknown_uid_errors() {
    let mut store = Store::new();
    assert!(delete_by_uid_inner(&mut store, "/cal/", "nope", &at()).is_err());
}

#[test]
fn jump_command_uses_u_prefix_and_trailing_newline() {
    assert_eq!(jump_command("doc-1,idx:2"), "ureTaskableJump:doc-1,idx:2\n");
    assert_eq!(jump_command("  doc-1,idx:0  "), "ureTaskableJump:doc-1,idx:0\n");
}

#[test]
fn show_pending_returns_structured_error_report() {
    let mut store = Store::new();
    store.tasks.push(TaskRow {
        calendar_href: "/cal/".to_string(),
        href: "/cal/t.ics".to_string(),
        etag: "e".to_string(),
        ical_text: "ical".to_string(),
        summary: "Broken task".to_string(),
        status: Some("needs-action".to_string()),
        due: None,
        uid: "uid-err".to_string(),
        pending_delete: false,
        anchor: None,
    });
    seed_op(&mut store, "toggle", "uid-err", 5, Some("server exploded"), 1);
    let v = show_pending(&store, 1_700_000_060);
    assert_eq!(v.pending_count, 1);
    assert_eq!(v.errors.len(), 1);
    assert_eq!(v.errors[0].id, 1);
    assert_eq!(v.errors[0].op_type, "toggle");
    assert_eq!(v.errors[0].summary, "Broken task");
    assert_eq!(v.errors[0].error_count, 5);
    assert_eq!(v.errors[0].errored, true);
    assert_eq!(v.errors[0].last_error, "server exploded");
    assert_eq!(v.errors[0].age, "1 minute");
}

#[test]
fn show_pending_omits_clean_queued_ops_from_error_report() {
    let mut store = Store::new();
    seed_op(&mut store, "create", "uid-new", 0, None, 0);
    let v = show_pending(&store, 1_700_000_000);
    assert_eq!(v.pending_count, 1);
    assert_eq!(v.errors.len(), 0);
}

#[test]
fn compose_empty_queue_matches_legacy_format() {
    let empty = FlushSummary::default();
    let out = compose_sync_response(&empty, Some("incremental"), 3, 1);
    assert_eq!(out, "Sync complete: incremental, +3 updated, -1 deleted.");
    assert!(!out.contains("Flushed"));
    assert!(!out.contains("skipped"));
}

#[test]
fn compose_flush_then_sync_prepends_flushed_line() {
    let flush = FlushSummary { flushed: 5, retried: 1, ..Default::default() };
    let out = compose_sync_response(&flush, Some("incremental"), 0, 0);
    assert_eq!(
        out,
        "Flushed 5 / 0 errored (1 retried).\nSync complete: incremental, +0 updated, -0 deleted."
    );
}

#[test]
fn compose_transient_break_appends_skipped_line() {
    let flush = FlushSummary { flushed: 2, transient_failed: 1, ..Default::default() };
    let out = compose_sync_response(&flush, None, 0, 0);
    assert_eq!(
        out,
        "Flushed 2 / 0 errored (0 retried).\nnetwork failed; sync-collection skipped"
    );
}

#[test]
fn compose_errored_and_cascade_count_toward_errored_total() {
    let flush = FlushSummary {
        flushed: 1,
        newly_errored: 1,
        cascade_errored: 2,
        ..Default::default()
    };
    let out = compose_sync_response(&flush, Some("full"), 10, 0);
    assert!(out.contains("Flushed 1 / 3 errored (0 retried)."));
}

#[test]
fn the_first_task_is_the_one_acted_on() {
    let mut store = with_calendar();
    let nothing = "no tasks in cache -- tap Sync first.";
    assert_eq!(toggle_first(&mut store, "/cal/", &at()).unwrap(), nothing);
    assert_eq!(edit_first(&mut store, "/cal/", "x", &at()).unwrap(), nothing);
    enqueue_create(&mut store, "/cal/", "a", "Apples").unwrap();
    assert!(toggle_first(&mut store, "/cal/", &at()).unwrap().contains("Apples"));
    assert!(edit_first(&mut store, "/cal/", "Pears", &at()).unwrap().contains("Pears"));
    assert_eq!(get_cached_task_by_uid(&store, "/cal/", "a").unwrap().summary, "Pears");
    assert!(delete_first(&mut store, "/cal/", &at()).unwrap().contains("Pears"));
    assert_eq!(delete_first(&mut store, "/cal/", &at()).unwrap(), nothing);
    assert_eq!(store.ops.len(), 4);
}

#[test]
fn a_task_of_the_local_list_is_not_queued() {
    let mut store = Store::new();
    ensure_local_list(&mut store);
    create(&mut store, LOCAL_LIST_ID, "l", "Local", "", &at()).unwrap();
    assert_eq!(store.ops.len(), 0);
    let t = toggle_by_uid_inner(&mut store, LOCAL_LIST_ID, "l", &at()).unwrap();
    assert_eq!((t.completed, t.mark.as_str()), (true, ""));
    edit_by_uid_inner(&mut store, LOCAL_LIST_ID, "l", "Renamed", Some("20270101"), &at()).unwrap();
    assert_eq!(store.tasks[0].due.as_deref(), Some("20270101"));
    delete_by_uid_inner(&mut store, LOCAL_LIST_ID, "l", &at()).unwrap();
    assert!(store.tasks.is_empty() && store.ops.is_empty());
}

#[test]
fn requests_are_read_from_their_messages() {
    assert_eq!(parse_uid("  u  ").unwrap(), "u");
    assert!(parse_uid("  ").is_err());
    let e = parse_edit(r#"{"uid":" u ","summary":" s ","due":""}"#).unwrap();
    assert_eq!((e.uid.as_str(), e.summary.as_str(), e.due.as_deref()), ("u", "s", Some("")));
    assert_eq!(parse_edit(r#"{"uid":"u","summary":"s"}"#).unwrap().due, None);
    assert!(parse_edit(r#"{"uid":"","summary":"s"}"#).is_err());
    assert!(parse_edit(r#"{"uid":"u","summary":" "}"#).is_err());
    assert!(parse_edit("nope").is_err());
    assert_eq!(parse_create(" plain words "), ("plain words".to_string(), "".to_string()));
    assert_eq!(
        parse_create(r#"{"summary":"s","due":"20270101"}"#),
        ("s".to_string(), "20270101".to_string())
    );
    assert!(wants_completed(" all "));
    assert!(!wants_completed("") && !wants_completed("ALL"));
}

#[test]
fn intake_items_become_tasks_and_empty_ones_do_not() {
    let mut store = with_calendar();
    let anchored = IntakeItem {
        summary: " Email Bob ".to_string(),
        source_doc_uuid: "doc-1".to_string(),
        source_page_key: "p:0.5".to_string(),
        source_label: "Plan · p.3".to_string(),
    };
    let plain = IntakeItem {
        summary: "Buy milk".to_string(),
        source_doc_uuid: "".to_string(),
        source_page_key: "".to_string(),
        source_label: "".to_string(),
    };
    let empty = IntakeItem {
        summary: "   ".to_string(),
        source_doc_uuid: "doc-2".to_string(),
        source_page_key: "p".to_string(),
        source_label: "L".to_string(),
    };
    assert!(ingest_item(&mut store, "/cal/", &anchored, "a", &at()).unwrap());
    assert!(ingest_item(&mut store, "/cal/", &plain, "b", &at()).unwrap());
    assert!(!ingest_item(&mut store, "/cal/", &empty, "c", &at()).unwrap());
    assert_eq!(make_anchor(&anchored).unwrap().doc_uuid, "doc-1");
    assert!(make_anchor(&plain).is_none());
    let tasks = list_tasks(&store, "/cal/");
    assert_eq!(tasks.len(), 2);
    let shown = show_tasks(&store, "/cal/", false, 0);
    let sources: Vec<(&str, &str)> = shown
        .sources
        .iter()
        .map(|s| (s.0.as_str(), s.1.as_str()))
        .filter(|s| !s.0.is_empty())
        .collect();
    assert_eq!(sources, vec![("Plan · p.3", "doc-1,p:0.5")]);
}

#[test]
fn files_of_the_intake_are_taken_or_left() {
    assert!(is_intake_file("a.json") && is_intake_file("a.b.json"));
    assert!(!is_intake_file("note.txt") && !is_intake_file(".json") && !is_intake_file("json"));
    let mut store = with_calendar();
    let item = |summary: &str| IntakeItem {
        summary: summary.to_string(),
        source_doc_uuid: "".to_string(),
        source_page_key: "".to_string(),
        source_label: "".to_string(),
    };
    let taken = take_in(&mut store, "/cal/", Ok(item("Buy milk")), "a", &at());
    assert!(matches!(taken, Verdict::Taken));
    assert_eq!((store.tasks.len(), store.ops.len()), (1, 1));
    for read in [Err("malformed: x".to_string()), Ok(item("  ")), Ok(item("Again"))] {
        assert!(matches!(take_in(&mut store, "/cal/", read, "a", &at()), Verdict::Left(_)));
        assert_eq!((store.tasks.len(), store.ops.len()), (1, 1), "a file that stays changes nothing");
    }
}

#[test]
fn the_list_shows_its_state() {
    let mut store = with_calendar();
    enqueue_create(&mut store, "/cal/", "a", "Apples").unwrap();
    let shown = show_tasks(&store, "/cal/", false, 1000);
    assert_eq!(shown.last_synced, None);
    assert_eq!(shown.tasks.len(), 1);
    assert_eq!(shown.tasks[0].mark, "*");
    set_last_synced(&mut store, "/cal/", 880);
    let shown = show_tasks(&store, "/cal/", false, 1000);
    assert_eq!(shown.last_synced.as_deref(), Some("Last synced 2 minutes ago."));
    assert_eq!(shown.conflicts, 0);
    ensure_local_list(&mut store);
    let local = show_tasks(&store, LOCAL_LIST_ID, false, 1000);
    assert_eq!(local.last_synced.as_deref(), Some("Stored on this reMarkable."));
}

#[test]
fn the_selected_list_must_exist() {
    let mut store = with_calendar();
    assert_eq!(select_source(&store, " /cal/ ").unwrap(), "/cal/");
    assert!(select_source(&store, "/nope/").is_err());
    assert!(select_source(&store, " ").is_err());
    assert_eq!(active_list_href(&mut store, &remote("/cal/")), "/cal/");
    assert_eq!(active_list_href(&mut store, &remote("/gone/")), LOCAL_LIST_ID);
    assert_eq!(active_list_href(&mut store, &Config::default()), LOCAL_LIST_ID);
    assert_eq!(list_calendars(&store).len(), 2, "the local list is always there");
}

#[test]
fn a_local_task_moves_or_is_copied_to_a_synced_list() {
    let mut store = with_calendar();
    ensure_local_list(&mut store);
    create(&mut store, LOCAL_LIST_ID, "l", "Local", "", &at()).unwrap();
    let copy = parse_transfer(r#"{"uid":"l","destination_id":"/cal/"}"#).unwrap();
    let said = transfer_task(&mut store, &copy, "n1", &at()).unwrap();
    assert_eq!(said, "Queued: copy local task to synced list (#1)");
    assert_eq!(list_tasks(&store, LOCAL_LIST_ID).len(), 1);
    assert_eq!(list_tasks(&store, "/cal/").len(), 1);
    let mv = parse_transfer(r#"{"uid":"l","destination_id":"/cal/","operation":"move"}"#).unwrap();
    transfer_task(&mut store, &mv, "n2", &at()).unwrap();
    assert_eq!(list_tasks(&store, LOCAL_LIST_ID).len(), 0);
    assert_eq!(list_tasks(&store, "/cal/").len(), 2);
    assert!(transfer_task(&mut store, &mv, "n3", &at()).is_err());
    let away = parse_transfer(r#"{"uid":"l","destination_id":"/nope/"}"#).unwrap();
    assert!(transfer_task(&mut store, &away, "n4", &at()).is_err());
    assert!(parse_transfer(r#"{"uid":"l"}"#).is_err());
    assert!(parse_transfer(r#"{"uid":"l","destination_id":"/c/","operation":"burn"}"#).is_err());
    assert!(parse_transfer("[").is_err());
}

#[test]
fn a_note_is_opened_by_its_anchor() {
    assert_eq!(open_note(" d,idx:1 ").unwrap(), "ureTaskableJump:d,idx:1\n");
    assert!(open_note("  ").is_err());
}

#[test]
fn clearing_says_how_many_were_cleared() {
    let mut store = with_calendar();
    seed_op(&mut store, "toggle", "a", 5, Some("x"), 1);
    assert!(clear_errored_reply(&mut store).contains('1'));
    assert!(store.ops.is_empty());
}

#[test]
fn messages_run_their_handlers() {
    let mut store = with_calendar();
    let cfg = remote("/cal/");
    let m = at();
    match handle_message(&mut store, &cfg, Ask::Ping, "", "x", &m) {
        Some(Body::Text(t)) => assert_eq!(t, "pong from reTaskable"),
        _ => panic!("a ping is answered"),
    }
    handle_message(&mut store, &cfg, Ask::CreateTask, "Buy milk", "u1", &m);
    match handle_message(&mut store, &cfg, Ask::ShowTasks, "", "x", &m) {
        Some(Body::Tasks(l)) => assert_eq!(l.tasks[0].summary, "Buy milk"),
        _ => panic!("the list is shown"),
    }
    match handle_message(&mut store, &cfg, Ask::ToggleByUid, "u1", "x", &m) {
        Some(Body::Toggled(t)) => assert!(t.completed),
        _ => panic!("the task is toggled"),
    }
    match handle_message(&mut store, &cfg, Ask::ToggleByUid, " ", "x", &m) {
        Some(Body::Text(t)) => assert_eq!(t, "error: uid cannot be empty"),
        _ => panic!("an empty identifier is refused"),
    }
    match handle_message(&mut store, &cfg, Ask::CreateTask, "  ", "u2", &m) {
        Some(Body::Text(t)) => assert_eq!(t, "error: summary cannot be empty"),
        _ => panic!("an empty summary is refused"),
    }
    match handle_message(&mut store, &cfg, Ask::ShowPending, "", "x", &m) {
        Some(Body::Pending(p)) => assert_eq!(p.pending_count, 2),
        _ => panic!("the queue is shown"),
    }
    match handle_message(&mut store, &cfg, Ask::ListSources, "", "x", &m) {
        Some(Body::Sources(active, lists)) => {
            assert_eq!(active, "/cal/");
            assert!(lists.iter().any(|l| l.0 == "/cal/" && l.1 == "Cal"));
        }
        _ => panic!("the lists are shown"),
    }
    assert!(handle_message(&mut store, &cfg, Ask::Sync, "", "x", &m).is_none());
}

#[test]
fn some_answers_need_no_settings() {
    for ask in [Ask::Ping, Ask::ShowPending, Ask::ClearErrored, Ask::TransferTask] {
        assert!(!needs_settings(ask));
    }
    for ask in [Ask::ShowTasks, Ask::CreateTask, Ask::EditByUid, Ask::ListSources, Ask::Sync] {
        assert!(needs_settings(ask));
    }
}
