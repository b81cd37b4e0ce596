use retaskable::cache::upsert_calendar;
use retaskable::db::{enqueue_create, enqueue_delete, enqueue_edit};
use retaskable::exchange::{
    create_task, delete_task_with_retry, put_task_create, put_task_create_with_uid,
    put_task_with_retry, Change,
};
use retaskable::failure::Failure;
use retaskable::http::{
    create_task_request, dav_request, delete_task_outcome, get_task_outcome, put_task_outcome,
    Answer, DeleteOutcome, Reply, Request, Step, WriteOutcome,
};
use retaskable::pending::fetch_next_drainable;
use retaskable::queue::{
    apply_outcome, classify_error, dispatch_op, due_in_payload, flush_start, flush_step,
    summary_in_payload,
    ExecOutcome, FlushAction, FlushSummary, MAX_STRIKES,
};
use retaskable::store::{PendingOp, Store, TaskRow};

const NOW: &str = "20260601T120000Z";
const BASE: &str = "http://dav.test";

fn fresh() -> Store {
    let mut store = Store::new();
    upsert_calendar(&mut store, "/cal/", "Cal");
    store
}

fn seed_at(store: &mut Store, op_type: &str, uid: &str, cal: &str, payload: Option<&str>, strikes: i64) {
    store.last_op_id += 1;
    store.ops.push(PendingOp {
        id: store.last_op_id,
        op_type: op_type.to_string(),
        target_uid: uid.to_string(),
        target_calendar_href: cal.to_string(),
        payload: payload.map(|s| s.to_string()),
        enqueued_at: 0,
        error_count: strikes,
        last_error: None,
        errored: 0,
    });
}

fn seed_op(store: &mut Store, op_type: &str, uid: &str) {
    seed_at(store, op_type, uid, "/cal/", None, 0);
}

fn seed_task(store: &mut Store, cal: &str, href: &str, etag: &str, ical: &str, summary: &str, status: &str, uid: &str) {
    store.tasks.push(TaskRow {
        calendar_href: cal.to_string(),
        href: href.to_string(),
        etag: etag.to_string(),
        ical_text: ical.to_string(),
        summary: summary.to_string(),
        status: Some(status.to_string()),
        due: None,
        uid: uid.to_string(),
        pending_delete: false,
        anchor: None,
    });
}

fn answer(status: u16, text: &str, etag: Option<&str>, body: &str) -> Reply {
    Reply::Answered(Answer {
        status,
        status_text: text.to_string(),
        etag: etag.map(|s| s.to_string()),
        body: Ok(body.to_string()),
        final_url: BASE.to_string(),
    })
}

fn header<'a>(r: &'a Request, name: &str) -> Option<&'a str> {
    r.headers
        .iter()
        .find(|h| h.0.eq_ignore_ascii_case(name))
        .map(|h| h.1.as_str())
}

fn flush_pending(
    store: &mut Store,
    calendar_url: &str,
    mut server: impl FnMut(&Request) -> Reply,
) -> FlushSummary {
    let mut summary = flush_start(store);
    let mut replies: Vec<Reply> = Vec::new();
    loop {
        match flush_step(store, calendar_url, &mut summary, &replies, NOW).expect("flush") {
            FlushAction::Send(request) => {
                let reply = server(&request);
                replies.push(reply);
            }
            FlushAction::Continue => replies.clear(),
            FlushAction::Finished => return summary,
        }
    }
}

fn silent(_: &Request) -> Reply {
    panic!("no request expected")
}

#[test]
fn flush_empty_queue_returns_default_summary() {
    let mut store = fresh();
    let summary = flush_pending(&mut store, "http://example.invalid/cal/", silent);
    assert!(summary.is_empty());
    assert_eq!(summary.flushed, 0);
}

#[test]
fn apply_outcome_success_update_with_retry_increments_retried() {
    let mut store = fresh();
    seed_task(&mut store, "/cal/", "/cal/t.ics", "old-etag", "old-ical", "s", "needs-action", "uid-x");
    seed_op(&mut store, "edit", "uid-x");
    let op = fetch_next_drainable(&store).unwrap();
    let mut summary = FlushSummary::default();
    let cont = apply_outcome(
        &mut store,
        &op,
        ExecOutcome::SuccessUpdate {
            new_etag: "new-etag".into(),
            new_ical: "new-ical".into(),
            retried: true,
        },
        &mut summary,
    )
    .unwrap();
    assert!(cont);
    assert_eq!(summary.flushed, 1);
    assert_eq!(summary.retried, 1);
    assert_eq!(store.ops.iter().filter(|o| o.id == op.id).count(), 0);
    assert_eq!(store.tasks[0].etag, "new-etag");
    assert_eq!(store.tasks[0].ical_text, "new-ical");
}

#[test]
fn apply_outcome_success_update_with_missing_cache_row_marks_errored() {
    let mut store = fresh();
    seed_op(&mut store, "toggle", "uid-orphan");
    let op = fetch_next_drainable(&store).unwrap();
    let mut summary = FlushSummary::default();
    let cont = apply_outcome(
        &mut store,
        &op,
        ExecOutcome::SuccessUpdate {
            new_etag: "etag-v2".into(),
            new_ical: "ical-v2".into(),
            retried: false,
        },
        &mut summary,
    )
    .unwrap();
    assert!(cont, "missing cache row treated as terminal (continue drain)");
    assert_eq!(summary.newly_errored, 1, "op must be marked errored");
    assert_eq!(summary.flushed, 0, "op must NOT count as flushed");
    assert_eq!(store.ops[0].errored, 1);
    assert!(store.ops[0].last_error.as_deref().unwrap().contains("cache row vanished"));
}

#[test]
fn apply_outcome_terminal_marks_errored_and_cascades() {
    let mut store = fresh();
    seed_op(&mut store, "edit", "uid-bad");
    seed_op(&mut store, "toggle", "uid-bad");
    seed_op(&mut store, "toggle", "uid-bad");
    seed_op(&mut store, "toggle", "uid-good");
    let op = fetch_next_drainable(&store).unwrap();
    assert_eq!(op.target_uid, "uid-bad");

    let mut summary = FlushSummary::default();
    let cont = apply_outcome(
        &mut store,
        &op,
        ExecOutcome::Terminal("404 not found".into()),
        &mut summary,
    )
    .unwrap();
    assert!(cont, "terminal does not break the drain");
    assert_eq!(summary.newly_errored, 1);
    assert_eq!(summary.cascade_errored, 2, "two siblings on uid-bad");
    assert_eq!(summary.flushed, 0);
    assert_eq!(store.ops.iter().filter(|o| o.errored == 1).count(), 3);
    assert_eq!(store.ops.iter().filter(|o| o.errored == 0).count(), 1);
    let next = fetch_next_drainable(&store).unwrap();
    assert_eq!(next.target_uid, "uid-good");
}

#[test]
fn apply_outcome_transient_breaks_loop_and_does_not_cascade() {
    let mut store = fresh();
    seed_op(&mut store, "toggle", "uid-a");
    seed_op(&mut store, "toggle", "uid-b");
    let op = fetch_next_drainable(&store).unwrap();
    let mut summary = FlushSummary::default();
    let cont = apply_outcome(
        &mut store,
        &op,
        ExecOutcome::Transient("connection refused".into()),
        &mut summary,
    )
    .unwrap();
    assert!(!cont, "transient must break the drain");
    assert_eq!(summary.transient_failed, 1);
    assert_eq!(summary.newly_errored, 0);
    assert_eq!(summary.cascade_errored, 0);
    assert_eq!((store.ops[0].error_count, store.ops[0].errored), (1, 0));
    assert_eq!(store.ops.len(), 2, "both ops still in queue");
}

#[test]
fn flush_pending_handles_absolute_href_from_sync_collection() {
    let mut store = fresh();
    let cal = format!("{BASE}/cal/");
    let href = format!("{BASE}/cal/task.ics");
    let cached_ical = "BEGIN:VCALENDAR\r\nVERSION:2.0\r\nBEGIN:VTODO\r\nUID:uid-test\r\n\
                       SUMMARY:Test\r\nSTATUS:NEEDS-ACTION\r\nDTSTAMP:20260101T000000Z\r\n\
                       END:VTODO\r\nEND:VCALENDAR\r\n";
    seed_task(&mut store, &cal, &href, "etag-v1", cached_ical, "Test", "needs-action", "uid-test");
    seed_at(&mut store, "toggle", "uid-test", &cal, None, 0);

    let mut puts = 0;
    let summary = flush_pending(&mut store, &cal, |r| {
        assert_eq!(r.method, "PUT");
        assert_eq!(r.url, href);
        assert_eq!(header(r, "If-Match"), Some("etag-v1"));
        puts += 1;
        answer(204, "204 No Content", Some("etag-v2"), "")
    });
    assert_eq!(summary.flushed, 1, "operation must succeed despite absolute href");
    assert_eq!(summary.newly_errored, 0);
    assert_eq!(puts, 1);
    assert_eq!(store.ops.len(), 0);
    assert_eq!(store.tasks[0].etag, "etag-v2");
}

#[test]
fn dispatch_toggle_sends_cached_post_mutation_body_not_re_mutated() {
    let mut store = fresh();
    let cal = format!("{BASE}/cal/");
    let href = format!("{BASE}/cal/toggle.ics");
    let cached_ical = "BEGIN:VCALENDAR\r\n\
                       VERSION:2.0\r\n\
                       BEGIN:VTODO\r\n\
                       UID:uid-toggle-test\r\n\
                       SUMMARY:Test toggle\r\n\
                       STATUS:COMPLETED\r\n\
                       PERCENT-COMPLETE:100\r\n\
                       COMPLETED:20260518T000000Z\r\n\
                       DTSTAMP:20260518T000000Z\r\n\
                       END:VTODO\r\n\
                       END:VCALENDAR\r\n";
    seed_task(&mut store, &cal, &href, "etag-cached", cached_ical, "Test toggle", "completed", "uid-toggle-test");
    seed_at(&mut store, "toggle", "uid-toggle-test", &cal, None, 0);

    let mut puts = 0;
    let summary = flush_pending(&mut store, &cal, |r| {
        assert_eq!(r.method, "PUT");
        assert_eq!(header(r, "If-Match"), Some("etag-cached"));
        assert!(r.body.as_deref().unwrap().contains("STATUS:COMPLETED"));
        puts += 1;
        answer(204, "204 No Content", Some("etag-fresh"), "")
    });
    assert_eq!(summary.flushed, 1, "toggle must flush successfully");
    assert_eq!(puts, 1);
}

#[test]
fn classify_double_412_as_terminal() {
    let err = Failure::new(
        "412 Precondition Failed twice in a row -- task keeps being modified concurrently",
    );
    assert!(matches!(classify_error(&err), ExecOutcome::Terminal(_)));
}

#[test]
fn classify_uid_collision_as_terminal() {
    let err = Failure::new("412 on create -- UID collision (should never happen with v4 UUIDs)");
    assert!(matches!(classify_error(&err), ExecOutcome::Terminal(_)));
}

#[test]
fn classify_404_as_terminal() {
    let err =
        Failure::new("PUT https://example.com/cal/x.ics -> 404 Not Found: <html>nope</html>");
    assert!(matches!(classify_error(&err), ExecOutcome::Terminal(_)));
}

#[test]
fn classify_401_as_terminal() {
    let err = Failure::new("PUT https://example.com/cal/x.ics -> 401 Unauthorized: bad creds");
    assert!(matches!(classify_error(&err), ExecOutcome::Terminal(_)));
}

#[test]
fn classify_500_as_transient() {
    let err = Failure::new("PUT https://example.com/cal/x.ics -> 500 Internal Server Error: oops");
    assert!(matches!(classify_error(&err), ExecOutcome::Transient(_)));
}

#[test]
fn classify_503_as_transient() {
    let err =
        Failure::new("PUT https://example.com/cal/x.ics -> 503 Service Unavailable: maintenance");
    assert!(matches!(classify_error(&err), ExecOutcome::Transient(_)));
}

#[test]
fn classify_unknown_as_transient_default() {
    let err = Failure::new("something weird happened");
    assert!(matches!(classify_error(&err), ExecOutcome::Transient(_)));
}

#[test]
fn flush_pending_happy_path_toggle() {
    let mut store = fresh();
    let cal = format!("{BASE}/cal/");
    let href = format!("{BASE}/cal/walk-the-dog.ics");
    let cached_ical = "BEGIN:VCALENDAR\r\nVERSION:2.0\r\n\
                       BEGIN:VTODO\r\nUID:uid-walk\r\nSUMMARY:Walk\r\n\
                       STATUS:NEEDS-ACTION\r\nDTSTAMP:20260101T000000Z\r\n\
                       END:VTODO\r\nEND:VCALENDAR\r\n";
    seed_task(&mut store, &cal, &href, "etag-cached", cached_ical, "Walk", "needs-action", "uid-walk");
    seed_at(&mut store, "toggle", "uid-walk", &cal, None, 0);
    let mut puts = 0;
    let summary = flush_pending(&mut store, &cal, |r| {
        assert_eq!(r.url, href);
        assert_eq!(header(r, "If-Match"), Some("etag-cached"));
        puts += 1;
        answer(204, "204 No Content", Some("etag-fresh"), "")
    });
    assert_eq!(summary.flushed, 1);
    assert_eq!(summary.transient_failed, 0);
    assert_eq!(summary.newly_errored, 0);
    assert_eq!(puts, 1);
    assert_eq!(store.ops.len(), 0);
    assert_eq!(store.tasks[0].etag, "etag-fresh");
}

#[test]
fn flush_pending_transient_5xx_bumps_error_count_and_breaks_drain() {
    let mut store = fresh();
    let cal = format!("{BASE}/cal/");
    let href = format!("{BASE}/cal/x.ics");
    let ical = "BEGIN:VCALENDAR\r\nBEGIN:VTODO\r\nUID:x\r\nSUMMARY:s\r\nEND:VTODO\r\nEND:VCALENDAR\r\n";
    seed_task(&mut store, &cal, &href, "etag-a", ical, "s", "needs-action", "uid-x");
    seed_at(&mut store, "toggle", "uid-x", &cal, None, 0);
    seed_at(&mut store, "toggle", "uid-x", &cal, None, 0);
    seed_at(&mut store, "toggle", "uid-y", &cal, None, 0);
    let summary = flush_pending(&mut store, &cal, |_| {
        answer(503, "503 Service Unavailable", None, "upstream gone")
    });
    assert_eq!(summary.flushed, 0);
    assert_eq!(summary.transient_failed, 1);
    assert_eq!(summary.newly_errored, 0, "first transient strike must NOT mark errored");
    assert_eq!(summary.cascade_errored, 0);
    assert_eq!(store.ops[0].error_count, 1);
    assert_eq!(store.ops[0].errored, 0);
    assert_eq!(store.ops.len(), 3);
    assert_eq!(store.ops[1].error_count, 0);
    assert_eq!(store.ops[2].error_count, 0);
}

#[test]
fn flush_pending_fifth_transient_strike_promotes_and_cascades() {
    let mut store = fresh();
    let cal = format!("{BASE}/cal/");
    let href = format!("{BASE}/cal/x.ics");
    seed_task(&mut store, &cal, &href, "e", "", "s", "needs-action", "uid-x");
    seed_at(&mut store, "toggle", "uid-x", &cal, None, 4);
    seed_at(&mut store, "toggle", "uid-x", &cal, None, 0);
    let summary = flush_pending(&mut store, &cal, |_| {
        answer(503, "503 Service Unavailable", None, "")
    });
    assert_eq!(summary.flushed, 0);
    assert_eq!(summary.newly_errored, 1, "5-strike promotion");
    assert_eq!(summary.cascade_errored, 1, "sibling on uid-x cascaded");
    assert_eq!(store.ops.iter().filter(|o| o.errored == 1).count(), 2);
    assert_eq!(store.ops.len(), 2);
    assert_eq!(store.ops[0].error_count, MAX_STRIKES);
}

#[test]
fn flush_pending_terminal_404_marks_errored_and_cascades() {
    let mut store = fresh();
    let cal = format!("{BASE}/cal/");
    seed_task(&mut store, &cal, &format!("{BASE}/cal/x.ics"), "e", "", "s", "needs-action", "uid-x");
    seed_task(&mut store, &cal, &format!("{BASE}/cal/y.ics"), "e", "", "s", "needs-action", "uid-y");
    seed_at(&mut store, "edit", "uid-x", &cal, Some("{\"summary\":\"new\"}"), 0);
    seed_at(&mut store, "toggle", "uid-x", &cal, None, 0);
    seed_at(&mut store, "toggle", "uid-y", &cal, None, 0);
    let summary = flush_pending(&mut store, &cal, |_| answer(404, "404 Not Found", None, "gone"));
    assert_eq!(summary.newly_errored, 2);
    assert_eq!(summary.cascade_errored, 1);
    let errored_on_x = store
        .ops
        .iter()
        .filter(|o| o.target_uid == "uid-x" && o.errored == 1)
        .count();
    assert_eq!(errored_on_x, 2);
}

#[test]
fn flush_pending_partial_drain_consistent_on_simulated_kill() {
    let mut store = fresh();
    let cal = format!("{BASE}/cal/");
    for n in ["a", "b"] {
        let ical = format!("BEGIN:VCALENDAR\r\nBEGIN:VTODO\r\nUID:{n}\r\nSUMMARY:s\r\nEND:VTODO\r\nEND:VCALENDAR\r\n");
        seed_task(&mut store, &cal, &format!("{BASE}/cal/{n}.ics"), "old", &ical, "s", "needs-action", &format!("uid-{n}"));
    }
    seed_at(&mut store, "toggle", "uid-a", &cal, None, 0);
    seed_at(&mut store, "toggle", "uid-b", &cal, None, 0);

    let consistent = |store: &Store| {
        store.tasks.iter().all(|t| {
            let queued = store.ops.iter().any(|o| o.target_uid == t.uid);
            (t.etag == "old") == queued
        })
    };
    let mut summary = flush_start(&store);
    let mut replies: Vec<Reply> = Vec::new();
    loop {
        assert!(consistent(&store), "no half-applied state between two steps");
        match flush_step(&mut store, &cal, &mut summary, &replies, NOW).expect("flush") {
            FlushAction::Send(_) => {
                replies.push(answer(204, "204 No Content", Some("fresh-etag"), ""))
            }
            FlushAction::Continue => replies.clear(),
            FlushAction::Finished => break,
        }
    }
    assert_eq!(summary.flushed, 2);
    let stale_pairs = store
        .tasks
        .iter()
        .filter(|t| t.etag == "old" && !store.ops.iter().any(|p| p.target_uid == t.uid))
        .count();
    assert_eq!(stale_pairs, 0, "no orphaned stale cache rows");
    let stale_ops = store
        .ops
        .iter()
        .filter(|p| store.tasks.iter().any(|t| t.uid == p.target_uid && t.etag == "fresh-etag"))
        .count();
    assert_eq!(stale_ops, 0, "no orphaned ops for already-fresh rows");
}

#[test]
fn get_task_returns_etag_and_crlf_body_on_200() {
    let lf_body = "BEGIN:VCALENDAR\nVERSION:2.0\nEND:VCALENDAR\n";
    let reply = answer(200, "200 OK", Some("\"etag-fresh\""), lf_body);
    let (etag, body) = get_task_outcome("http://dav.test/cal/t.ics", &reply)
        .expect("get_task should succeed")
        .expect("200 should yield Some");
    assert_eq!(etag, "\"etag-fresh\"");
    assert_eq!(body, "BEGIN:VCALENDAR\r\nVERSION:2.0\r\nEND:VCALENDAR\r\n");
}

#[test]
fn get_task_returns_none_on_404() {
    let got = get_task_outcome("http://dav.test/cal/gone.ics", &answer(404, "404 Not Found", None, ""))
        .expect("get_task should not error on 404");
    assert!(got.is_none(), "404 should yield None, got {got:?}");
}

#[test]
fn get_task_returns_none_on_410() {
    let got = get_task_outcome("http://dav.test/cal/gone.ics", &answer(410, "410 Gone", None, ""))
        .expect("get_task should not error on 410");
    assert!(got.is_none(), "410 should yield None, got {got:?}");
}

#[test]
fn a_new_task_is_put_and_takes_its_real_href() {
    let mut store = Store::new();
    let cal = format!("{BASE}/cal/");
    enqueue_create(&mut store, &cal, "uid-n", "Buy, milk").unwrap();
    let summary = flush_pending(&mut store, &cal, |r| {
        assert_eq!(r.method, "PUT");
        assert_eq!(r.url, "http://dav.test/cal/uid-n.ics");
        assert_eq!(header(r, "If-None-Match"), Some("*"));
        assert!(r.body.as_deref().unwrap().contains("SUMMARY:Buy\\, milk\r\n"));
        answer(201, "201 Created", Some("e1"), "")
    });
    assert_eq!(summary.flushed, 1);
    assert_eq!(store.ops.len(), 0);
    assert_eq!(store.tasks.len(), 1);
    assert_eq!(store.tasks[0].href, "http://dav.test/cal/uid-n.ics");
    assert_eq!(store.tasks[0].etag, "e1");
    assert_eq!(store.tasks[0].summary, "Buy, milk");
}

#[test]
fn a_deleted_task_leaves_the_cache_once_the_server_agrees() {
    let mut store = Store::new();
    let cal = format!("{BASE}/cal/");
    seed_task(&mut store, &cal, &format!("{BASE}/cal/d.ics"), "e", "", "D", "needs-action", "uid-d");
    enqueue_delete(&mut store, &cal, "uid-d").unwrap();
    let summary = flush_pending(&mut store, &cal, |r| {
        assert_eq!(r.method, "DELETE");
        answer(204, "204 No Content", None, "")
    });
    assert_eq!(summary.flushed, 1);
    assert!(store.tasks.is_empty() && store.ops.is_empty());
}

#[test]
fn a_refused_edit_is_redone_on_the_fresh_text() {
    let mut store = Store::new();
    let cal = format!("{BASE}/cal/");
    let ical = "BEGIN:VCALENDAR\r\nBEGIN:VTODO\r\nUID:u\r\nSUMMARY:Old\r\nEND:VTODO\r\nEND:VCALENDAR\r\n";
    seed_task(&mut store, &cal, &format!("{BASE}/cal/u.ics"), "e", ical, "Old", "needs-action", "u");
    enqueue_edit(&mut store, &cal, "u", "Mine").unwrap();
    let theirs = "BEGIN:VCALENDAR\r\nBEGIN:VTODO\r\nUID:u\r\nSUMMARY:Theirs\r\nX-KEEP:1\r\nEND:VTODO\r\nEND:VCALENDAR\r\n";
    let mut seen: Vec<String> = Vec::new();
    let summary = flush_pending(&mut store, &cal, |r| {
        seen.push(r.method.clone());
        match seen.len() {
            1 => answer(412, "412 Precondition Failed", None, ""),
            2 => answer(200, "200 OK", Some("e2"), theirs),
            _ => {
                assert_eq!(header(r, "If-Match"), Some("e2"));
                let body = r.body.as_deref().unwrap();
                assert!(body.contains("SUMMARY:Mine\r\n") && body.contains("X-KEEP:1\r\n"));
                answer(204, "204 No Content", Some("e3"), "")
            }
        }
    });
    assert_eq!(seen, vec!["PUT", "GET", "PUT"]);
    assert_eq!((summary.flushed, summary.retried), (1, 1));
    assert_eq!(store.tasks[0].etag, "e3");
}

#[test]
fn a_twice_refused_toggle_becomes_a_conflict() {
    let mut store = Store::new();
    let cal = format!("{BASE}/cal/");
    let ical = "BEGIN:VCALENDAR\r\nBEGIN:VTODO\r\nUID:u\r\nSUMMARY:S\r\nSTATUS:NEEDS-ACTION\r\nEND:VTODO\r\nEND:VCALENDAR\r\n";
    seed_task(&mut store, &cal, &format!("{BASE}/cal/u.ics"), "e", ical, "S", "completed", "u");
    seed_at(&mut store, "toggle", "u", &cal, None, 0);
    let summary = flush_pending(&mut store, &cal, |r| {
        if r.method == "GET" {
            answer(200, "200 OK", Some("e2"), ical)
        } else {
            answer(412, "412 Precondition Failed", None, "")
        }
    });
    assert_eq!(summary.newly_errored, 1);
    assert_eq!(
        store.ops[0].last_error.as_deref(),
        Some("double-412 (server-side conflict)")
    );
}

#[test]
fn a_broken_connection_is_waited_for() {
    let mut store = Store::new();
    let cal = format!("{BASE}/cal/");
    enqueue_create(&mut store, &cal, "u", "S").unwrap();
    let summary = flush_pending(&mut store, &cal, |_| {
        Reply::Failed(Failure {
            network: Some("connection refused".to_string()),
            message: "sending request".to_string(),
        })
    });
    assert_eq!(summary.transient_failed, 1);
    assert_eq!(store.ops[0].error_count, 1);
    assert_eq!(store.ops.len(), 1);
}

#[test]
fn operations_that_cannot_be_sent_are_given_up() {
    let mut store = Store::new();
    seed_at(&mut store, "frob", "u", "/cal/", None, 0);
    seed_at(&mut store, "toggle", "gone", "/cal/", None, 0);
    let summary = flush_pending(&mut store, "http://dav.test/cal/", silent);
    assert_eq!(summary.newly_errored, 2);
    assert_eq!(summary.flushed, 0);
    assert!(store.ops.iter().all(|o| o.errored == 1 && o.last_error.is_some()));
}

#[test]
fn a_create_without_a_payload_gets_a_placeholder_summary() {
    let mut store = Store::new();
    let cal = format!("{BASE}/cal/");
    seed_at(&mut store, "create", "c", &cal, None, 0);
    let op = fetch_next_drainable(&store).unwrap();
    match dispatch_op(&store, &cal, &op, &vec![], NOW) {
        Step::Send(r) => {
            assert!(r.body.as_deref().unwrap().contains("SUMMARY:(no summary)\r\n"))
        }
        Step::Done(_) => panic!("a request is due"),
    }
}

#[test]
fn a_dispatch_asks_before_it_settles() {
    let mut store = Store::new();
    let cal = format!("{BASE}/cal/");
    enqueue_create(&mut store, &cal, "u", "S").unwrap();
    let op = fetch_next_drainable(&store).unwrap();
    assert!(matches!(dispatch_op(&store, &cal, &op, &vec![], NOW), Step::Send(_)));
    let replies = vec![answer(201, "201 Created", Some("e"), "")];
    assert!(matches!(
        dispatch_op(&store, &cal, &op, &replies, NOW),
        Step::Done(ExecOutcome::SuccessCreate { .. })
    ));
}

#[test]
fn the_summary_of_a_payload_is_read_back() {
    assert_eq!(
        summary_in_payload(&Some(r#"{"summary":"a \"b\""}"#.to_string())).as_deref(),
        Some("a \"b\"")
    );
    assert_eq!(summary_in_payload(&Some("{}".to_string())), None);
    assert_eq!(summary_in_payload(&Some("nope".to_string())), None);
    assert_eq!(summary_in_payload(&None), None);
}

#[test]
fn write_answers_are_told_apart() {
    let url = "http://dav.test/x.ics";
    assert!(matches!(
        put_task_outcome(url, &answer(204, "204 No Content", Some("e"), "")),
        Ok(WriteOutcome::Updated(e)) if e == "e"
    ));
    assert!(matches!(
        put_task_outcome(url, &answer(412, "412 Precondition Failed", None, "")),
        Ok(WriteOutcome::PreconditionFailed)
    ));
    let e = put_task_outcome(url, &answer(500, "500 Internal Server Error", None, "oops")).unwrap_err();
    assert!(e.message.contains("500 Internal Server Error"), "{}", e.message);
    assert!(matches!(
        delete_task_outcome(url, &answer(204, "204 No Content", None, "")),
        Ok(DeleteOutcome::Deleted)
    ));
    assert!(matches!(
        delete_task_outcome(url, &answer(404, "404 Not Found", None, "")),
        Ok(DeleteOutcome::NotFound)
    ));
    assert!(matches!(
        delete_task_outcome(url, &answer(412, "412 Precondition Failed", None, "")),
        Ok(DeleteOutcome::PreconditionFailed)
    ));
    assert!(delete_task_outcome(url, &answer(403, "403 Forbidden", None, "")).is_err());
    assert!(get_task_outcome(url, &answer(500, "500 Internal Server Error", None, "")).is_err());
}

#[test]
fn requests_carry_their_headers() {
    let r = dav_request("PROPFIND", "http://dav.test/", "0", "<x/>");
    assert_eq!(r.method, "PROPFIND");
    assert_eq!(header(&r, "Depth"), Some("0"));
    assert_eq!(r.body.as_deref(), Some("<x/>"));
    let c = create_task_request("http://dav.test/a.ics", "body");
    assert_eq!(header(&c, "If-None-Match"), Some("*"));
}

#[test]
fn a_delete_settles_on_a_missing_task_and_retries_once() {
    let url = "http://dav.test/x.ics";
    let gone = vec![answer(404, "404 Not Found", None, "")];
    assert!(matches!(delete_task_with_retry(url, "e", &gone), Step::Done(Ok(false))));
    let mut replies = vec![answer(412, "412 Precondition Failed", None, "")];
    match delete_task_with_retry(url, "e", &replies) {
        Step::Send(r) => assert_eq!(r.method, "GET"),
        Step::Done(_) => panic!("the fresh version is asked for"),
    }
    replies.push(answer(200, "200 OK", Some("e2"), ""));
    match delete_task_with_retry(url, "e", &replies) {
        Step::Send(r) => assert_eq!(header(&r, "If-Match"), Some("e2")),
        Step::Done(_) => panic!("the delete is sent again"),
    }
    replies.push(answer(204, "204 No Content", None, ""));
    assert!(matches!(delete_task_with_retry(url, "e", &replies), Step::Done(Ok(true))));
}

#[test]
fn the_due_date_of_a_payload_is_read_back() {
    let due = |p: &str| due_in_payload(&Some(p.to_string()));
    assert_eq!(due(r#"{"due":"20270101","summary":"a"}"#).as_deref(), Some("20270101"));
    assert_eq!(due(r#"{"due":"","summary":"a"}"#).as_deref(), Some(""));
    assert_eq!(due(r#"{"summary":"a"}"#), None);
    assert_eq!(due("not json"), None);
    assert_eq!(due_in_payload(&None), None);
}

#[test]
fn an_edit_is_applied_again_with_its_due_date() {
    let change = Change::Edit { summary: "S".to_string(), due: Some("20270101".to_string()) };
    let fresh = "BEGIN:VTODO\r\nSUMMARY:T\r\nEND:VTODO\r\n";
    let replies = vec![
        answer(412, "412 Precondition Failed", None, ""),
        answer(200, "200 OK", Some("e2"), fresh),
    ];
    match put_task_with_retry("http://dav.test/x.ics", "e", "text", &change, &replies, NOW) {
        Step::Send(r) => assert_eq!(
            r.body.as_deref(),
            Some(
                "BEGIN:VTODO\r\nSUMMARY:S\r\nDTSTAMP:20260601T120000Z\r\n\
                 LAST-MODIFIED:20260601T120000Z\r\nDUE;VALUE=DATE:20270101\r\nEND:VTODO\r\n"
            )
        ),
        Step::Done(_) => panic!("the write is sent again"),
    }
}

#[test]
fn a_put_is_sent_as_it_is_first() {
    match put_task_with_retry("http://dav.test/x.ics", "e", "text", &Change::Toggle, &vec![], NOW) {
        Step::Send(r) => assert_eq!(r.body.as_deref(), Some("text")),
        Step::Done(_) => panic!("a request is due"),
    }
}

#[test]
fn a_create_that_collides_fails() {
    let replies = vec![answer(412, "412 Precondition Failed", None, "")];
    match put_task_create("http://dav.test/x.ics", "text", &replies) {
        Step::Done(Err(e)) => assert!(e.message.contains("UID collision"), "{}", e.message),
        _ => panic!("a collision is an error"),
    }
    match put_task_create_with_uid("http://dav.test/x.ics", "u-1", "Milk", &vec![], NOW) {
        Step::Send(r) => assert!(r.body.as_deref().unwrap().contains("UID:u-1\r\n")),
        Step::Done(_) => panic!("a request is due"),
    }
}

#[test]
fn a_planned_task_has_a_place_and_a_body() {
    let (url, body) = create_task("http://dav.test/cal", "Milk").unwrap();
    assert!(url.starts_with("http://dav.test/cal/") && url.ends_with(".ics"), "{url}");
    assert!(body.contains("SUMMARY:Milk\r\n"));
    let (other, _) = create_task("http://dav.test/cal", "Milk").unwrap();
    assert_ne!(url, other, "each task has an identifier of its own");
    assert!(create_task("not a url", "Milk").is_err());
}
