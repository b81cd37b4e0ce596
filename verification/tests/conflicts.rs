use retaskable::conflict::{
    apply_decision_inner, apply_keep_mine_inner, apply_take_theirs_inner, format_conflict_preview,
    format_no_conflict_preview, load_resolvable_op, parse_decision_payload,
    resolve_first_conflict_inner, DecisionKind,
};
use retaskable::failure::Failure;
use retaskable::http::{Answer, Reply, Request, Step};
use retaskable::store::{PendingOp, Store, TaskRow};

const BASE: &str = "http://dav.test";
const CONFLICT: &str = "double-412 (server-side conflict)";

fn seed_task(store: &mut Store, href: &str, ical: &str, summary: &str, status: &str, uid: &str) {
    store.tasks.push(TaskRow {
        calendar_href: format!("{BASE}/cal/"),
        href: href.to_string(),
        etag: "etag-stale".to_string(),
        ical_text: ical.to_string(),
        summary: summary.to_string(),
        status: Some(status.to_string()),
        due: None,
        uid: uid.to_string(),
        pending_delete: false,
        anchor: None,
    });
}

fn seed_op(store: &mut Store, op_type: &str, uid: &str, payload: Option<&str>, last_error: &str) {
    store.last_op_id += 1;
    store.ops.push(PendingOp {
        id: store.last_op_id,
        op_type: op_type.to_string(),
        target_uid: uid.to_string(),
        target_calendar_href: format!("{BASE}/cal/"),
        payload: payload.map(|s| s.to_string()),
        enqueued_at: 100,
        error_count: 0,
        last_error: Some(last_error.to_string()),
        errored: 1,
    });
}

fn answer(status: u16, text: &str, etag: Option<&str>, body: &str) -> Reply {
    Reply::Answered(Answer {
        status,
        status_text: text.to_string(),
        etag: etag.map(|s| s.to_string()),
        body: Ok(body.to_string()),
        final_url: BASE.to_string(),
    })
}

fn header<'a>(r: &'a Request, name: &str) -> Option<&'a str> {
    r.headers
        .iter()
        .find(|h| h.0.eq_ignore_ascii_case(name))
        .map(|h| h.1.as_str())
}

fn run(
    mut step: impl FnMut(&Vec<Reply>) -> Step<Result<String, Failure>>,
    mut server: impl FnMut(&Request) -> Reply,
) -> Result<String, Failure> {
    let mut replies: Vec<Reply> = Vec::new();
    loop {
        match step(&replies) {
            Step::Send(request) => {
                let reply = server(&request);
                replies.push(reply);
            }
            Step::Done(result) => return result,
        }
    }
}

fn silent(_: &Request) -> Reply {
    panic!("no request expected")
}

fn body(uid: &str, summary: &str, status: &str, stamp: &str) -> String {
    format!(
        "BEGIN:VCALENDAR\r\nVERSION:2.0\r\nBEGIN:VTODO\r\nUID:{uid}\r\nSUMMARY:{summary}\r\n\
         STATUS:{status}\r\nDTSTAMP:{stamp}\r\nEND:VTODO\r\nEND:VCALENDAR\r\n"
    )
}

#[test]
fn format_conflict_preview_toggle_completion_diff() {
    let out = format_conflict_preview(
        42,
        "toggle",
        "b8c9a2e1-4f5d-6789-0abc-def012345678",
        "Walk the dog",
        false,
        Some(("Walk the dog", true)),
    );
    assert_eq!(
        out,
        "OPID:42\n\
         Conflict on \"Walk the dog\" (UID \u{2026}12345678)\n\
         Op: toggle\n\
         Local:  \"Walk the dog\" (not completed)\n\
         Server: \"Walk the dog\" (completed)\n\
         Tap Keep Mine, Take Theirs, or Cancel."
    );
}

#[test]
fn format_conflict_preview_edit_summary_diff() {
    let out = format_conflict_preview(
        7,
        "edit",
        "uid-milk",
        "Buy 2% milk",
        false,
        Some(("Buy whole milk", false)),
    );
    assert!(out.starts_with("OPID:7\n"));
    assert!(out.contains("Op: edit\n"));
    assert!(out.contains("Local:  \"Buy 2% milk\" (not completed)\n"));
    assert!(out.contains("Server: \"Buy whole milk\" (not completed)\n"));
}

#[test]
fn format_conflict_preview_uses_local_summary_in_header_when_server_gone() {
    let out = format_conflict_preview(99, "edit", "uid-zzzz", "Local-only task", false, None);
    assert!(out.starts_with("OPID:99\n"));
    assert!(out.contains("Conflict on \"Local-only task\""));
    assert!(out.contains("Server: (deleted server-side)\n"));
}

#[test]
fn format_conflict_preview_short_uid_renders_without_ellipsis() {
    let out = format_conflict_preview(1, "toggle", "abc", "S", false, Some(("S", true)));
    assert!(out.contains("(UID abc)"), "short UID rendered as: {out}");
}

#[test]
fn format_no_conflict_preview_uses_opid_zero() {
    let out = format_no_conflict_preview();
    assert_eq!(out, "OPID:0\nNo conflicts to resolve.");
}

#[test]
fn resolve_first_conflict_inner_returns_no_conflict_when_queue_clean() {
    let store = Store::new();
    let out = run(
        |r| resolve_first_conflict_inner(&store, "http://example.invalid/cal/", r),
        silent,
    )
    .expect("inner ok");
    assert_eq!(out, "OPID:0\nNo conflicts to resolve.");
}

#[test]
fn resolve_first_conflict_inner_renders_toggle_completion_diff() {
    let server_ical = "BEGIN:VCALENDAR\r\n\
                       VERSION:2.0\r\n\
                       PRODID:-//reTaskable test//EN\r\n\
                       BEGIN:VTODO\r\n\
                       UID:uid-walk\r\n\
                       DTSTAMP:20260518T120000Z\r\n\
                       SUMMARY:Walk the dog\r\n\
                       STATUS:COMPLETED\r\n\
                       END:VTODO\r\n\
                       END:VCALENDAR\r\n";
    let local_ical = body("uid-walk", "Walk the dog", "NEEDS-ACTION", "20260518T100000Z");
    let mut store = Store::new();
    let href = format!("{BASE}/cal/walk.ics");
    seed_task(&mut store, &href, &local_ical, "Walk the dog", "needs-action", "uid-walk");
    seed_op(&mut store, "toggle", "uid-walk", None, CONFLICT);
    let out = run(
        |r| resolve_first_conflict_inner(&store, &format!("{BASE}/cal/"), r),
        |r| {
            assert_eq!((r.method.as_str(), r.url.as_str()), ("GET", href.as_str()));
            answer(200, "200 OK", Some("\"server-etag\""), server_ical)
        },
    )
    .expect("inner ok");
    assert!(out.starts_with("OPID:1\n"), "expected OPID:1, got:\n{out}");
    assert!(out.contains("Op: toggle\n"), "missing op type:\n{out}");
    assert!(
        out.contains("Local:  \"Walk the dog\" (not completed)"),
        "missing local line:\n{out}"
    );
    assert!(
        out.contains("Server: \"Walk the dog\" (completed)"),
        "missing server line:\n{out}"
    );
    assert!(out.contains("Tap Keep Mine, Take Theirs, or Cancel."));
}

#[test]
fn parse_decision_payload_accepts_keep_and_take() {
    let (k, id) = parse_decision_payload("keep:42").expect("keep");
    assert!(matches!(k, DecisionKind::Keep));
    assert_eq!(id, 42);
    let (k, id) = parse_decision_payload("take:7").expect("take");
    assert!(matches!(k, DecisionKind::Take));
    assert_eq!(id, 7);
}

#[test]
fn parse_decision_payload_rejects_malformed() {
    assert!(parse_decision_payload("noseparator").is_err());
    assert!(parse_decision_payload("keep:notanumber").is_err());
    assert!(parse_decision_payload("merge:1").is_err());
    assert!(parse_decision_payload("").is_err());
    assert!(parse_decision_payload("keep:-1").is_err());
}

#[test]
fn apply_keep_mine_inner_returns_already_resolved_when_op_missing() {
    let mut store = Store::new();
    let out = run(
        |r| apply_keep_mine_inner(&mut store, "http://example.invalid/cal/", 42, r),
        silent,
    )
    .expect("ok");
    assert!(out.contains("already resolved or cleared"), "got: {out}");
}

#[test]
fn apply_keep_mine_inner_returns_not_resolvable_when_op_kind_wrong() {
    let mut store = Store::new();
    seed_op(&mut store, "toggle", "uid-x", None, "HTTP 401 Unauthorized");
    let out = run(
        |r| apply_keep_mine_inner(&mut store, "http://example.invalid/cal/", 1, r),
        silent,
    )
    .expect("ok");
    assert!(out.contains("no longer in a resolvable state"), "got: {out}");
}

#[test]
fn apply_keep_mine_inner_happy_path_updates_cache_and_drops_op_and_siblings() {
    let server_ical = body("uid-walk", "Walk the dog", "NEEDS-ACTION", "20260518T120000Z");
    let cached = body("uid-walk", "Walk the dog", "COMPLETED", "20260518T100000Z");
    let mut store = Store::new();
    seed_task(&mut store, &format!("{BASE}/cal/walk.ics"), &cached, "Walk the dog", "completed", "uid-walk");
    seed_op(&mut store, "toggle", "uid-walk", None, CONFLICT);
    seed_op(&mut store, "edit", "uid-walk", Some("{\"summary\":\"x\"}"), "blocked by failed toggle");
    let mut puts = 0;
    let out = run(
        |r| apply_keep_mine_inner(&mut store, &format!("{BASE}/cal/"), 1, r),
        |r| {
            if r.method == "GET" {
                answer(200, "200 OK", Some("\"etag-fresh\""), &server_ical)
            } else {
                assert_eq!(header(r, "If-Match"), Some("\"etag-fresh\""));
                assert_eq!(r.body.as_deref(), Some(cached.as_str()));
                puts += 1;
                answer(204, "204 No Content", Some("\"etag-after-keep\""), "")
            }
        },
    )
    .expect("ok");
    assert_eq!(puts, 1);
    assert!(out.contains("Kept your version"), "got: {out}");
    assert!(out.contains("Walk the dog"));
    assert!(out.contains("completed"));
    assert!(out.contains("1 cascaded"), "expected cascaded count in: {out}");
    assert_eq!(store.tasks[0].etag, "\"etag-after-keep\"");
    assert_eq!(store.ops.len(), 0);
}

#[test]
fn apply_keep_mine_inner_triple_412_leaves_op_errored() {
    let server_ical = body("uid-t", "T", "NEEDS-ACTION", "20260518T120000Z");
    let cached = body("uid-t", "T", "COMPLETED", "20260518T100000Z");
    let mut store = Store::new();
    seed_task(&mut store, &format!("{BASE}/cal/t.ics"), &cached, "T", "completed", "uid-t");
    seed_op(&mut store, "toggle", "uid-t", None, CONFLICT);
    let out = run(
        |r| apply_keep_mine_inner(&mut store, &format!("{BASE}/cal/"), 1, r),
        |r| {
            if r.method == "GET" {
                answer(200, "200 OK", Some("\"etag-fresh\""), &server_ical)
            } else {
                answer(412, "412 Precondition Failed", None, "")
            }
        },
    )
    .expect("ok");
    assert!(out.contains("Conflict reopened"), "got: {out}");
    assert_eq!(store.ops[0].errored, 1);
    assert_eq!(store.tasks[0].etag, "etag-stale");
}

#[test]
fn apply_keep_mine_inner_get_404_reports_deleted_server_side() {
    let cached = body("uid-g", "G", "NEEDS-ACTION", "20260518T100000Z");
    let mut store = Store::new();
    seed_task(&mut store, &format!("{BASE}/cal/gone.ics"), &cached, "G", "needs-action", "uid-g");
    seed_op(&mut store, "toggle", "uid-g", None, CONFLICT);
    let out = run(
        |r| apply_keep_mine_inner(&mut store, &format!("{BASE}/cal/"), 1, r),
        |_| answer(404, "404 Not Found", None, ""),
    )
    .expect("ok");
    assert!(out.contains("deleted server-side"), "got: {out}");
    assert_eq!(store.ops[0].errored, 1);
}

#[test]
fn apply_take_theirs_inner_overwrites_cache_with_server_state() {
    let server_ical = body("uid-walk", "Walk the dog (server's version)", "COMPLETED", "20260518T120000Z");
    let cached = body("uid-walk", "Walk the dog (local)", "NEEDS-ACTION", "20260518T100000Z");
    let mut store = Store::new();
    seed_task(&mut store, &format!("{BASE}/cal/walk.ics"), &cached, "Walk the dog (local)", "needs-action", "uid-walk");
    seed_op(&mut store, "edit", "uid-walk", Some("{\"summary\":\"local\"}"), CONFLICT);
    seed_op(&mut store, "toggle", "uid-walk", None, "blocked by failed edit");
    let out = run(
        |r| apply_take_theirs_inner(&mut store, &format!("{BASE}/cal/"), 1, r),
        |_| answer(200, "200 OK", Some("\"etag-fresh\""), &server_ical),
    )
    .expect("ok");
    assert!(out.contains("Took server version"), "got: {out}");
    assert!(out.contains("Walk the dog (server's version)"));
    assert!(out.contains("completed"));
    assert!(out.contains("1 cascaded"));
    assert_eq!(store.tasks[0].summary, "Walk the dog (server's version)");
    assert_eq!(store.tasks[0].status.as_deref(), Some("completed"));
    assert_eq!(store.tasks[0].etag, "\"etag-fresh\"");
    assert_eq!(store.ops.len(), 0);
}

#[test]
fn apply_take_theirs_inner_server_404_deletes_local_cache_row() {
    let cached = body("uid-g", "G", "NEEDS-ACTION", "20260518T100000Z");
    let mut store = Store::new();
    seed_task(&mut store, &format!("{BASE}/cal/gone.ics"), &cached, "G", "needs-action", "uid-g");
    seed_op(&mut store, "edit", "uid-g", Some("{\"summary\":\"x\"}"), CONFLICT);
    let out = run(
        |r| apply_take_theirs_inner(&mut store, &format!("{BASE}/cal/"), 1, r),
        |_| answer(404, "404 Not Found", None, ""),
    )
    .expect("ok");
    assert!(
        out.contains("deleted server-side") && out.contains("Local row removed"),
        "got: {out}"
    );
    assert_eq!(store.tasks.len(), 0);
    assert_eq!(store.ops.len(), 0);
}

#[test]
fn apply_decision_dispatches_take_branch() {
    let server_ical = body("uid-d", "S", "COMPLETED", "20260518T120000Z");
    let cached = body("uid-d", "Local", "NEEDS-ACTION", "20260518T100000Z");
    let mut store = Store::new();
    seed_task(&mut store, &format!("{BASE}/cal/d.ics"), &cached, "Local", "needs-action", "uid-d");
    seed_op(&mut store, "edit", "uid-d", Some("{\"summary\":\"Local\"}"), CONFLICT);
    let mut gets = 0;
    let out = run(
        |r| apply_decision_inner(&mut store, &format!("{BASE}/cal/"), "take:1", r),
        |_| {
            gets += 1;
            answer(200, "200 OK", Some("\"e\""), &server_ical)
        },
    )
    .expect("ok");
    assert_eq!(gets, 1);
    assert!(out.contains("Took server version"), "got: {out}");
}

#[test]
fn resolve_first_conflict_inner_handles_server_404() {
    let local = "BEGIN:VCALENDAR\r\n\
                 BEGIN:VTODO\r\nUID:uid-gone\r\n\
                 SUMMARY:Local edit\r\nSTATUS:NEEDS-ACTION\r\n\
                 DTSTAMP:20260518T100000Z\r\nEND:VTODO\r\nEND:VCALENDAR\r\n";
    let mut store = Store::new();
    seed_task(&mut store, &format!("{BASE}/cal/gone.ics"), local, "Local edit", "needs-action", "uid-gone");
    seed_op(&mut store, "edit", "uid-gone", Some("{\"summary\":\"Local edit\"}"), CONFLICT);
    let out = run(
        |r| resolve_first_conflict_inner(&store, &format!("{BASE}/cal/"), r),
        |_| answer(404, "404 Not Found", None, ""),
    )
    .expect("inner ok");
    assert!(out.starts_with("OPID:1\n"));
    assert!(out.contains("Op: edit\n"));
    assert!(out.contains("Server: (deleted server-side)"), "got:\n{out}");
}

#[test]
fn a_decision_that_cannot_be_read_changes_nothing() {
    let mut store = Store::new();
    seed_op(&mut store, "edit", "u", None, CONFLICT);
    let out = run(
        |r| apply_decision_inner(&mut store, &format!("{BASE}/cal/"), "merge:1", r),
        silent,
    );
    assert!(out.is_err());
    assert_eq!(store.ops.len(), 1);
}

#[test]
fn only_a_conflict_can_be_resolved() {
    let mut store = Store::new();
    seed_op(&mut store, "edit", "u", None, CONFLICT);
    seed_op(&mut store, "delete", "v", None, CONFLICT);
    assert!(load_resolvable_op(&store, 1).is_ok());
    assert!(load_resolvable_op(&store, 2).is_err());
    assert!(load_resolvable_op(&store, 3).is_err());
}
