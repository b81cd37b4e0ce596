use retaskable::cache::{
    delete_task, ensure_local_list, get_calendar_href_by_display_name, get_sync_token,
    is_local_list, last_synced, reset_cache, set_last_synced, set_sync_token, upsert_calendar,
    upsert_task,
};
use retaskable::db::{
    create_local_with_anchor, delete_local, edit_local, enqueue_create, enqueue_create_with_anchor,
    enqueue_delete, enqueue_edit, enqueue_edit_at, enqueue_toggle, enqueue_toggle_at,
    status_from_str, status_to_str, toggle_local,
};
use retaskable::listing::{
    get_cached_task_by_uid, get_first_task, list_pending_ops, list_tasks, pending_marks,
};
use retaskable::pending::{
    bump_error_count_tx, cascade_uid, clear_errored, count_resolvable_conflicts,
    delete_pending_op, drop_errored_on, fetch_next_drainable, first_resolvable_conflict,
    get_pending_op_by_id, mark_op_errored,
};
use retaskable::store::{Anchor, PendingOp, Store, TaskRow};
use retaskable::task::{Task, TaskStatus};

fn with_calendar() -> Store {
    let mut store = Store::new();
    upsert_calendar(&mut store, "/cal/", "Cal");
    store
}

fn seed_task(
    store: &mut Store,
    href: &str,
    etag: &str,
    ical: &str,
    summary: &str,
    status: &str,
    uid: &str,
    pending_delete: bool,
) {
    store.tasks.push(TaskRow {
        calendar_href: "/cal/".to_string(),
        href: href.to_string(),
        etag: etag.to_string(),
        ical_text: ical.to_string(),
        summary: summary.to_string(),
        status: Some(status.to_string()),
        due: None,
        uid: uid.to_string(),
        pending_delete,
        anchor: None,
    });
}

fn seed_full(
    store: &mut Store,
    op_type: &str,
    uid: &str,
    cal: &str,
    payload: Option<&str>,
    at: i64,
    errored: i64,
    last_error: Option<&str>,
) -> i64 {
    store.last_op_id += 1;
    let id = store.last_op_id;
    store.ops.push(PendingOp {
        id,
        op_type: op_type.to_string(),
        target_uid: uid.to_string(),
        target_calendar_href: cal.to_string(),
        payload: payload.map(|s| s.to_string()),
        enqueued_at: at,
        error_count: 0,
        last_error: last_error.map(|s| s.to_string()),
        errored,
    });
    id
}

fn seed_op(store: &mut Store, cal: &str, uid: &str, op_type: &str, errored: i64) {
    seed_full(store, op_type, uid, cal, None, 1700000000, errored, None);
}

fn row<'a>(store: &'a Store, uid: &str) -> &'a TaskRow {
    store.tasks.iter().find(|t| t.uid == uid).expect("row")
}

fn op(store: &Store, id: i64) -> &PendingOp {
    store.ops.iter().find(|o| o.id == id).expect("op")
}

#[test]
fn pending_marks_empty_when_no_ops() {
    let store = Store::new();
    let marks = pending_marks(&store, "cal1");
    assert!(marks.is_empty());
}

#[test]
fn pending_marks_queued_op_is_false() {
    let mut store = Store::new();
    seed_op(&mut store, "cal1", "uid-A", "toggle", 0);
    let marks = pending_marks(&store, "cal1");
    assert_eq!(marks.get("uid-A"), Some(false));
}

#[test]
fn pending_marks_errored_op_is_true() {
    let mut store = Store::new();
    seed_op(&mut store, "cal1", "uid-A", "edit", 1);
    let marks = pending_marks(&store, "cal1");
    assert_eq!(marks.get("uid-A"), Some(true));
}

#[test]
fn pending_marks_errored_wins_over_queued_for_same_uid() {
    let mut store = Store::new();
    seed_op(&mut store, "cal1", "uid-A", "toggle", 0);
    seed_op(&mut store, "cal1", "uid-A", "edit", 1);
    let marks = pending_marks(&store, "cal1");
    assert_eq!(marks.get("uid-A"), Some(true));
    assert_eq!(marks.len(), 1, "ops for one UID collapse to one entry");
}

#[test]
fn pending_marks_scoped_to_calendar() {
    let mut store = Store::new();
    seed_op(&mut store, "cal1", "uid-A", "toggle", 0);
    seed_op(&mut store, "cal2", "uid-B", "toggle", 1);
    let marks = pending_marks(&store, "cal1");
    assert_eq!(marks.get("uid-A"), Some(false));
    assert!(marks.get("uid-B").is_none(), "other calendar's op must not leak in");
}

#[test]
fn upsert_task_stores_uid_and_roundtrips() {
    let mut store = Store::new();
    upsert_calendar(&mut store, "/cal/", "Tasks");
    let parsed = Task {
        uid: "task-uid-1@retaskable".into(),
        summary: "hello".into(),
        status: TaskStatus::NeedsAction,
        due: None,
    };
    upsert_task(
        &mut store,
        "/cal/",
        "/cal/task-1.ics",
        "etag-1",
        "BEGIN:VCALENDAR\r\nBEGIN:VTODO\r\nUID:task-uid-1@retaskable\r\nSUMMARY:hello\r\nEND:VTODO\r\nEND:VCALENDAR\r\n",
        &parsed.uid,
        &parsed,
    );
    let k = store.find_keyed("/cal/", "/cal/task-1.ics");
    assert_eq!(store.tasks[k].uid, "task-uid-1@retaskable");
    assert!(!store.tasks[k].pending_delete);

    let parsed2 = Task {
        uid: "task-uid-1@retaskable".into(),
        summary: "hello again".into(),
        status: TaskStatus::Completed,
        due: None,
    };
    upsert_task(
        &mut store,
        "/cal/",
        "/cal/task-1.ics",
        "etag-2",
        "BEGIN:VCALENDAR\r\nBEGIN:VTODO\r\nUID:task-uid-1@retaskable\r\nSUMMARY:hello again\r\nSTATUS:COMPLETED\r\nEND:VTODO\r\nEND:VCALENDAR\r\n",
        &parsed2.uid,
        &parsed2,
    );
    let k = store.find_keyed("/cal/", "/cal/task-1.ics");
    assert_eq!(store.tasks[k].etag, "etag-2");
    assert_eq!(store.tasks[k].summary, "hello again");
    assert_eq!(store.tasks.len(), 1);
}

#[test]
fn list_tasks_filters_tombstoned_rows() {
    let mut store = with_calendar();
    seed_task(&mut store, "/cal/a.ics", "", "", "live", "needs-action", "uid-a", false);
    seed_task(&mut store, "/cal/b.ics", "", "", "gone", "needs-action", "uid-b", true);
    let rows = list_tasks(&store, "/cal/");
    assert_eq!(rows.len(), 1);
    assert_eq!(rows[0].summary, "live");
}

#[test]
fn enqueue_create_atomically_inserts_task_and_pending_op() {
    let mut store = with_calendar();
    let op_id = enqueue_create(&mut store, "/cal/", "uid-new-1", "Buy milk").expect("enqueue");
    assert!(op_id > 0);

    let t = row(&store, "uid-new-1");
    assert_eq!(t.calendar_href, "/cal/");
    assert_eq!(t.href, "pending:uid-new-1");
    assert_eq!(t.etag, "");
    assert_eq!(t.status.as_deref(), Some("needs-action"));
    assert_eq!(t.summary, "Buy milk");
    assert_eq!(t.uid, "uid-new-1");
    assert!(!t.pending_delete);

    let ical = &t.ical_text;
    assert!(ical.contains("UID:uid-new-1\r\n"));
    assert!(ical.contains("SUMMARY:Buy milk\r\n"));
    assert!(ical.contains("STATUS:NEEDS-ACTION\r\n"));
    assert!(ical.starts_with("BEGIN:VCALENDAR\r\n"));
    assert!(ical.ends_with("END:VCALENDAR\r\n"));

    let o = op(&store, op_id);
    assert_eq!(o.op_type, "create");
    assert_eq!(o.target_uid, "uid-new-1");
    assert_eq!(o.target_calendar_href, "/cal/");
    assert_eq!(o.payload.as_deref(), Some(r#"{"summary":"Buy milk"}"#));
    assert_eq!(o.error_count, 0);
    assert_eq!(o.errored, 0);
}

#[test]
fn enqueue_create_optimistically_visible_in_list_tasks() {
    let mut store = with_calendar();
    enqueue_create(&mut store, "/cal/", "uid-x", "hello").unwrap();
    let rows = list_tasks(&store, "/cal/");
    assert_eq!(rows.len(), 1);
    assert_eq!(rows[0].summary, "hello");
}

#[test]
fn enqueue_toggle_flips_status_and_inserts_op() {
    let mut store = with_calendar();
    let ical = "BEGIN:VCALENDAR\r\n\
        VERSION:2.0\r\n\
        BEGIN:VTODO\r\n\
        UID:uid-t\r\n\
        DTSTAMP:20260101T000000Z\r\n\
        SUMMARY:Walk dog\r\n\
        STATUS:NEEDS-ACTION\r\n\
        END:VTODO\r\n\
        END:VCALENDAR\r\n";
    seed_task(&mut store, "/cal/t.ics", "etag-1", ical, "Walk dog", "needs-action", "uid-t", false);

    let op_id = enqueue_toggle(&mut store, "/cal/", "uid-t").expect("enqueue");
    assert!(op_id > 0);

    let t = row(&store, "uid-t");
    assert_eq!(t.status.as_deref(), Some("completed"));
    assert!(t.ical_text.contains("STATUS:COMPLETED\r\n"));
    assert!(t.ical_text.contains("COMPLETED:"));
    assert!(t.ical_text.contains("PERCENT-COMPLETE:100\r\n"));

    let o = op(&store, op_id);
    assert_eq!(o.op_type, "toggle");
    assert!(o.payload.is_none());
}

#[test]
fn enqueue_toggle_unknown_uid_leaves_no_pending_op() {
    let mut store = with_calendar();
    let err = enqueue_toggle(&mut store, "/cal/", "uid-missing");
    assert!(err.is_err(), "expected error for missing uid");
    assert_eq!(store.ops.len(), 0, "no orphan pending_op should exist");
}

#[test]
fn enqueue_edit_rewrites_summary_and_enqueues_op() {
    let mut store = with_calendar();
    let ical = "BEGIN:VCALENDAR\r\n\
        VERSION:2.0\r\n\
        BEGIN:VTODO\r\n\
        UID:uid-e\r\n\
        DTSTAMP:20260101T000000Z\r\n\
        SUMMARY:Old\r\n\
        STATUS:NEEDS-ACTION\r\n\
        END:VTODO\r\n\
        END:VCALENDAR\r\n";
    seed_task(&mut store, "/cal/e.ics", "etag-1", ical, "Old", "needs-action", "uid-e", false);

    let op_id = enqueue_edit(&mut store, "/cal/", "uid-e", "New summary").expect("enqueue");
    assert!(op_id > 0);

    let t = row(&store, "uid-e");
    assert_eq!(t.summary, "New summary");
    assert!(t.ical_text.contains("SUMMARY:New summary\r\n"));
    assert!(!t.ical_text.contains("SUMMARY:Old\r\n"));

    let o = op(&store, op_id);
    assert_eq!(o.op_type, "edit");
    assert_eq!(o.payload.as_deref(), Some(r#"{"summary":"New summary"}"#));
}

#[test]
fn enqueue_edit_escapes_special_characters_in_payload() {
    let mut store = with_calendar();
    let ical = "BEGIN:VCALENDAR\r\nBEGIN:VTODO\r\nUID:uid-q\r\n\
                SUMMARY:plain\r\nEND:VTODO\r\nEND:VCALENDAR\r\n";
    seed_task(&mut store, "/cal/q.ics", "", ical, "plain", "needs-action", "uid-q", false);

    let weird = "He said \"hi\"\nand left";
    enqueue_edit(&mut store, "/cal/", "uid-q", weird).unwrap();
    let payload = store
        .ops
        .iter()
        .find(|o| o.target_uid == "uid-q")
        .and_then(|o| o.payload.clone())
        .unwrap();
    let parsed: serde_json::Value = serde_json::from_str(&payload).unwrap();
    assert_eq!(parsed["summary"], weird);
}

#[test]
fn enqueue_edit_unknown_uid_rolls_back() {
    let mut store = with_calendar();
    let err = enqueue_edit(&mut store, "/cal/", "uid-missing", "anything");
    assert!(err.is_err());
    assert_eq!(store.ops.len(), 0);
}

#[test]
fn enqueue_delete_tombstones_row_and_hides_from_list() {
    let mut store = with_calendar();
    seed_task(&mut store, "/cal/d.ics", "etag", "", "Doomed", "needs-action", "uid-d", false);

    let op_id = enqueue_delete(&mut store, "/cal/", "uid-d").unwrap();
    assert!(op_id > 0);
    assert!(row(&store, "uid-d").pending_delete);

    let rows = list_tasks(&store, "/cal/");
    assert!(rows.is_empty(), "tombstoned task must not appear in list_tasks");

    let o = op(&store, op_id);
    assert_eq!(o.op_type, "delete");
    assert!(o.payload.is_none());
}

#[test]
fn enqueue_delete_unknown_uid_rolls_back() {
    let mut store = with_calendar();
    let err = enqueue_delete(&mut store, "/cal/", "uid-nope");
    assert!(err.is_err());
    assert_eq!(store.ops.len(), 0);
}

#[test]
fn enqueue_delete_twice_returns_error_second_time() {
    let mut store = with_calendar();
    seed_task(&mut store, "/cal/d.ics", "", "", "s", "needs-action", "uid-dup", false);
    enqueue_delete(&mut store, "/cal/", "uid-dup").unwrap();
    let again = enqueue_delete(&mut store, "/cal/", "uid-dup");
    assert!(again.is_err());
    let count = store.ops.iter().filter(|o| o.target_uid == "uid-dup").count();
    assert_eq!(count, 1);
}

#[test]
fn get_first_task_returns_uid_and_status() {
    let mut store = with_calendar();
    seed_task(&mut store, "/cal/t.ics", "e", "ical", "walk", "completed", "uid-1", false);
    let task = get_first_task(&store, "/cal/").unwrap();
    assert_eq!(task.uid, "uid-1");
    assert_eq!(task.status, "completed");
    assert_eq!(task.summary, "walk");
}

#[test]
fn fetch_next_drainable_returns_lowest_id_unerrored() {
    let mut store = with_calendar();
    seed_full(&mut store, "toggle", "a", "/cal/", None, 100, 1, None);
    seed_full(&mut store, "toggle", "b", "/cal/", None, 101, 0, None);
    seed_full(&mut store, "toggle", "c", "/cal/", None, 102, 0, None);
    let next = fetch_next_drainable(&store).expect("some op");
    assert_eq!(next.target_uid, "b");
    assert_eq!(next.errored, 0);
}

#[test]
fn fetch_next_drainable_returns_none_on_empty_or_all_errored() {
    let mut store = Store::new();
    assert!(fetch_next_drainable(&store).is_none());
    seed_full(&mut store, "toggle", "a", "/cal/", None, 100, 1, None);
    assert!(fetch_next_drainable(&store).is_none());
}

#[test]
fn delete_pending_op_removes_row() {
    let mut store = Store::new();
    let id = seed_full(&mut store, "toggle", "a", "/cal/", None, 0, 0, None);
    delete_pending_op(&mut store, id);
    assert_eq!(store.ops.len(), 0);
}

#[test]
fn delete_pending_op_is_idempotent() {
    let mut store = Store::new();
    delete_pending_op(&mut store, 9999);
    assert_eq!(store.ops.len(), 0);
}

#[test]
fn mark_op_errored_sets_flag_and_message() {
    let mut store = Store::new();
    let id = seed_full(&mut store, "toggle", "a", "/cal/", None, 0, 0, None);
    mark_op_errored(&mut store, id, "404 not found");
    let o = op(&store, id);
    assert_eq!(o.errored, 1);
    assert_eq!(o.last_error.as_deref(), Some("404 not found"));
}

#[test]
fn cascade_uid_poisons_only_unerrored_siblings_on_same_uid() {
    let mut store = Store::new();
    seed_full(&mut store, "toggle", "uid-x", "/c/", None, 0, 1, Some("pre-existing"));
    seed_full(&mut store, "toggle", "uid-x", "/c/", None, 1, 0, None);
    seed_full(&mut store, "toggle", "uid-x", "/c/", None, 2, 0, None);
    seed_full(&mut store, "toggle", "uid-y", "/c/", None, 3, 0, None);

    let cascaded = cascade_uid(&mut store, "uid-x", "edit");
    assert_eq!(cascaded, 2, "should cascade two clean siblings");

    let pre = store.ops.iter().find(|o| o.enqueued_at == 0).unwrap();
    assert_eq!(pre.last_error.as_deref(), Some("pre-existing"));

    let cascaded_msgs: Vec<&str> = store
        .ops
        .iter()
        .filter(|o| o.target_uid == "uid-x" && (o.enqueued_at == 1 || o.enqueued_at == 2))
        .map(|o| o.last_error.as_deref().unwrap())
        .collect();
    assert_eq!(cascaded_msgs.len(), 2);
    assert!(cascaded_msgs.iter().all(|m| *m == "blocked by failed edit"));

    let y = store.ops.iter().find(|o| o.target_uid == "uid-y").unwrap();
    assert_eq!(y.errored, 0);
}

#[test]
fn list_pending_ops_returns_id_ascending_with_summary() {
    let mut store = with_calendar();
    seed_task(&mut store, "/cal/a.ics", "", "", "Apple", "needs-action", "uid-a", false);
    seed_task(&mut store, "/cal/b.ics", "", "", "Banana", "needs-action", "uid-b", false);
    seed_full(&mut store, "toggle", "uid-a", "/cal/", None, 100, 0, None);
    let second = seed_full(
        &mut store,
        "edit",
        "uid-b",
        "/cal/",
        Some("{\"summary\":\"newb\"}"),
        101,
        1,
        Some("404 not found"),
    );
    seed_full(&mut store, "toggle", "uid-missing", "/cal/", None, 102, 0, None);
    let k = store.find_op(second);
    store.ops[k].error_count = 1;

    let ops = list_pending_ops(&store);
    assert_eq!(ops.len(), 3);
    assert_eq!(ops[0].summary, "Apple");
    assert_eq!(ops[1].summary, "Banana");
    assert_eq!(ops[1].errored, 1);
    assert_eq!(ops[1].error_count, 1);
    assert_eq!(ops[1].last_error.as_deref(), Some("404 not found"));
    assert_eq!(ops[2].summary, "(unknown)", "an operation without a row has a placeholder");
    assert!(ops[0].id < ops[1].id && ops[1].id < ops[2].id);
}

#[test]
fn clear_errored_drops_errored_ops_and_resets_cache_effects() {
    let mut store = with_calendar();
    seed_task(&mut store, "/cal/keep.ics", "e", "", "Keep me", "needs-action", "uid-keep", true);
    seed_task(&mut store, "pending:uid-new", "", "", "Locally made", "needs-action", "uid-new", false);
    seed_full(&mut store, "delete", "uid-keep", "/cal/", None, 0, 1, Some("404"));
    seed_full(
        &mut store,
        "create",
        "uid-new",
        "/cal/",
        Some("{\"summary\":\"Locally made\"}"),
        1,
        1,
        Some("auth"),
    );
    seed_full(&mut store, "toggle", "uid-other", "/cal/", None, 2, 0, None);

    let cleared = clear_errored(&mut store);
    assert_eq!(cleared, 2);
    assert!(!row(&store, "uid-keep").pending_delete);
    assert_eq!(store.tasks.iter().filter(|t| t.uid == "uid-new").count(), 0);
    assert_eq!(store.ops.len(), 1);
    assert_eq!(store.ops[0].op_type, "toggle");
}

#[test]
fn clear_errored_is_idempotent_on_empty() {
    let mut store = Store::new();
    let cleared = clear_errored(&mut store);
    assert_eq!(cleared, 0);
}

#[test]
fn first_resolvable_conflict_returns_none_when_no_errored_ops() {
    let mut store = Store::new();
    assert!(first_resolvable_conflict(&store).is_none());
    seed_full(&mut store, "toggle", "a", "/cal/", None, 100, 0, None);
    assert!(first_resolvable_conflict(&store).is_none());
}

#[test]
fn first_resolvable_conflict_skips_non_conflict_errors() {
    let mut store = Store::new();
    seed_full(&mut store, "toggle", "a", "/cal/", None, 100, 1, Some("HTTP 401 Unauthorized"));
    seed_full(&mut store, "edit", "b", "/cal/", None, 101, 1, Some("HTTP 404 Not Found"));
    assert!(first_resolvable_conflict(&store).is_none());
}

#[test]
fn first_resolvable_conflict_returns_lowest_id_double_412_toggle_or_edit() {
    let conflict = "double-412 (server-side conflict)";
    let mut store = Store::new();
    seed_full(&mut store, "toggle", "a", "/cal/", None, 100, 1, Some("HTTP 401 Unauthorized"));
    seed_full(&mut store, "edit", "b", "/cal/", None, 101, 1, Some("blocked by failed toggle"));
    seed_full(&mut store, "toggle", "c", "/cal/", None, 102, 1, Some(conflict));
    seed_full(&mut store, "edit", "d", "/cal/", None, 103, 1, Some(conflict));
    let op = first_resolvable_conflict(&store).expect("some");
    assert_eq!(op.target_uid, "c");
    assert_eq!(op.op_type, "toggle");
    assert_eq!(count_resolvable_conflicts(&store), 2);
}

#[test]
fn first_resolvable_conflict_excludes_unsupported_op_types() {
    let conflict = "double-412 (server-side conflict)";
    let mut store = Store::new();
    seed_full(&mut store, "delete", "a", "/cal/", None, 100, 1, Some(conflict));
    seed_full(&mut store, "create", "b", "/cal/", Some("{}"), 101, 1, Some(conflict));
    assert!(first_resolvable_conflict(&store).is_none());
}

#[test]
fn get_cached_task_by_uid_returns_row() {
    let mut store = Store::new();
    seed_task(&mut store, "/cal/t.ics", "e", "ical", "walk", "completed", "uid-1", false);
    let cached = get_cached_task_by_uid(&store, "/cal/", "uid-1").expect("some");
    assert_eq!(cached.uid, "uid-1");
    assert_eq!(cached.summary, "walk");
    assert_eq!(cached.etag, "e");
    assert_eq!(cached.href, "/cal/t.ics");
}

#[test]
fn get_cached_task_by_uid_finds_pending_delete_rows_too() {
    let mut store = Store::new();
    seed_task(&mut store, "/cal/t.ics", "e", "ical", "walk", "completed", "uid-1", true);
    assert!(get_cached_task_by_uid(&store, "/cal/", "uid-1").is_some());
}

#[test]
fn get_cached_task_by_uid_returns_none_for_missing() {
    let store = Store::new();
    assert!(get_cached_task_by_uid(&store, "/cal/", "nope").is_none());
}

#[test]
fn get_pending_op_by_id_returns_row_or_none() {
    let mut store = Store::new();
    assert!(get_pending_op_by_id(&store, 99).is_none());
    seed_full(
        &mut store,
        "toggle",
        "uid-x",
        "/cal/",
        None,
        100,
        1,
        Some("double-412 (server-side conflict)"),
    );
    let op = get_pending_op_by_id(&store, 1).expect("some");
    assert_eq!(op.target_uid, "uid-x");
    assert_eq!(op.errored, 1);
    assert_eq!(op.last_error.as_deref(), Some("double-412 (server-side conflict)"));
}

#[test]
fn statuses_read_back_and_other_names_are_unknown() {
    for s in [
        TaskStatus::NeedsAction,
        TaskStatus::InProcess,
        TaskStatus::Completed,
        TaskStatus::Cancelled,
        TaskStatus::Unknown,
    ] {
        assert_eq!(status_from_str(Some(status_to_str(s))), s);
    }
    assert_eq!(status_from_str(Some("bogus")), TaskStatus::Unknown);
    assert_eq!(status_from_str(None), TaskStatus::Unknown);
}

#[test]
fn toggling_twice_restores_the_status() {
    let mut store = with_calendar();
    enqueue_create(&mut store, "/cal/", "u", "Twice").unwrap();
    enqueue_toggle_at(&mut store, "/cal/", "u", "20260102T030405Z", 7).unwrap();
    assert_eq!(row(&store, "u").status.as_deref(), Some("completed"));
    assert!(row(&store, "u").ical_text.contains("COMPLETED:20260102T030405Z\r\n"));
    enqueue_toggle_at(&mut store, "/cal/", "u", "20260102T030406Z", 8).unwrap();
    assert_eq!(row(&store, "u").status.as_deref(), Some("needs-action"));
    assert!(!row(&store, "u").ical_text.contains("COMPLETED:"));
    assert_eq!(store.ops.len(), 3);
    assert_eq!(store.ops[2].enqueued_at, 8);
}

#[test]
fn operations_queue_in_order_with_rising_ids() {
    let mut store = with_calendar();
    let a = enqueue_create(&mut store, "/cal/", "a", "A").unwrap();
    let b = enqueue_create(&mut store, "/cal/", "b", "B").unwrap();
    let c = enqueue_edit(&mut store, "/cal/", "a", "AA").unwrap();
    assert!(a < b && b < c);
    assert_eq!(fetch_next_drainable(&store).unwrap().id, a);
    delete_pending_op(&mut store, c);
    let d = enqueue_toggle(&mut store, "/cal/", "b").unwrap();
    assert!(d > c, "an id is never handed out twice");
}

#[test]
fn creating_a_taken_row_is_refused_without_a_trace() {
    let mut store = with_calendar();
    enqueue_create(&mut store, "/cal/", "a", "A").unwrap();
    assert!(enqueue_create(&mut store, "/cal/", "a", "again").is_err());
    assert_eq!(store.ops.len(), 1);
    assert_eq!(row(&store, "a").summary, "A");
}

#[test]
fn an_anchor_and_a_due_date_travel_with_a_new_task() {
    let mut store = with_calendar();
    let anchor = Anchor {
        doc_uuid: "doc-1".to_string(),
        page_key: "p:0.5".to_string(),
        label: "Plan".to_string(),
    };
    enqueue_create_with_anchor(&mut store, "/cal/", "a", "A", Some(&anchor), Some("20270101"))
        .unwrap();
    let t = row(&store, "a");
    assert_eq!(t.due.as_deref(), Some("20270101"));
    assert!(t.ical_text.contains("\r\nDUE;VALUE=DATE:20270101\r\n"));
    assert_eq!(t.anchor.as_ref().unwrap().label, "Plan");
}

#[test]
fn an_edit_with_a_due_date_sets_it() {
    let mut store = with_calendar();
    enqueue_create(&mut store, "/cal/", "a", "A").unwrap();
    enqueue_edit_at(&mut store, "/cal/", "a", "B", Some("20270202"), "20260102T030405Z", 5).unwrap();
    assert_eq!(row(&store, "a").due.as_deref(), Some("20270202"));
    assert!(row(&store, "a").ical_text.contains("\r\nDUE;VALUE=DATE:20270202\r\n"));
    enqueue_edit_at(&mut store, "/cal/", "a", "B", Some(""), "20260102T030405Z", 6).unwrap();
    assert_eq!(row(&store, "a").due, None);
    assert!(!row(&store, "a").ical_text.contains("DUE"));
    assert_eq!(
        store.ops.last().unwrap().payload.as_deref(),
        Some(r#"{"due":"","summary":"B"}"#)
    );
    assert_eq!(row(&store, "a").summary, "B");
}

#[test]
fn local_changes_queue_nothing() {
    let mut store = Store::new();
    ensure_local_list(&mut store);
    create_local_with_anchor(&mut store, "l", "Local", None, None, "20260102T030405Z").unwrap();
    toggle_local(&mut store, "l", "20260102T030406Z").unwrap();
    assert_eq!(row(&store, "l").status.as_deref(), Some("completed"));
    edit_local(&mut store, "l", "Renamed", None, "20260102T030407Z").unwrap();
    assert_eq!(row(&store, "l").summary, "Renamed");
    assert_eq!(store.ops.len(), 0);
    delete_local(&mut store, "l").unwrap();
    assert_eq!(store.tasks.len(), 0);
    assert!(delete_local(&mut store, "l").is_err());
    assert!(toggle_local(&mut store, "l", "x").is_err());
    assert!(edit_local(&mut store, "l", "x", None, "x").is_err());
}

#[test]
fn strikes_count_up_and_a_missing_operation_is_an_error() {
    let mut store = Store::new();
    let id = seed_full(&mut store, "toggle", "a", "/cal/", None, 0, 0, None);
    assert_eq!(bump_error_count_tx(&mut store, id, "one").unwrap(), 1);
    assert_eq!(bump_error_count_tx(&mut store, id, "two").unwrap(), 2);
    assert_eq!(op(&store, id).last_error.as_deref(), Some("two"));
    assert!(bump_error_count_tx(&mut store, 99, "x").is_err());
}

#[test]
fn resolving_drops_the_errored_operations_of_one_task() {
    let mut store = Store::new();
    seed_full(&mut store, "toggle", "a", "/cal/", None, 0, 1, None);
    seed_full(&mut store, "edit", "a", "/cal/", None, 1, 1, None);
    seed_full(&mut store, "edit", "a", "/cal/", None, 2, 0, None);
    seed_full(&mut store, "edit", "b", "/cal/", None, 3, 1, None);
    assert_eq!(drop_errored_on(&mut store, "a"), 2);
    assert_eq!(store.ops.len(), 2);
}

#[test]
fn sync_bookkeeping_is_kept_per_calendar() {
    let mut store = with_calendar();
    assert_eq!(get_sync_token(&store, "/cal/"), None);
    assert_eq!(last_synced(&store, "/cal/"), None);
    set_sync_token(&mut store, "/cal/", "tok", 42);
    assert_eq!(get_sync_token(&store, "/cal/").as_deref(), Some("tok"));
    assert_eq!(last_synced(&store, "/cal/"), Some(42));
    set_last_synced(&mut store, "/cal/", 43);
    assert_eq!(last_synced(&store, "/cal/"), Some(43));
    upsert_calendar(&mut store, "/cal/", "Renamed");
    assert_eq!(get_sync_token(&store, "/cal/").as_deref(), Some("tok"));
    assert_eq!(
        get_calendar_href_by_display_name(&store, "Renamed").as_deref(),
        Some("/cal/")
    );
    assert_eq!(get_calendar_href_by_display_name(&store, "Cal"), None);
}

#[test]
fn resetting_keeps_only_the_local_list() {
    let mut store = with_calendar();
    ensure_local_list(&mut store);
    create_local_with_anchor(&mut store, "l", "Local", None, None, "20260102T030405Z").unwrap();
    enqueue_create(&mut store, "/cal/", "r", "Remote").unwrap();
    reset_cache(&mut store);
    assert_eq!(store.ops.len(), 0);
    assert_eq!(store.tasks.len(), 1);
    assert_eq!(store.tasks[0].uid, "l");
    assert_eq!(store.calendars.len(), 1);
    assert!(is_local_list(&store.calendars[0].href));
}

#[test]
fn deleting_one_row_leaves_the_others() {
    let mut store = with_calendar();
    seed_task(&mut store, "/cal/a.ics", "", "", "A", "needs-action", "a", false);
    seed_task(&mut store, "/cal/b.ics", "", "", "B", "needs-action", "b", false);
    delete_task(&mut store, "/cal/", "/cal/a.ics");
    delete_task(&mut store, "/other/", "/cal/b.ics");
    assert_eq!(store.tasks.len(), 1);
    assert_eq!(store.tasks[0].uid, "b");
}
