use retaskable::cache::{get_sync_token, last_synced, upsert_calendar};
use retaskable::clock::Moment;
use retaskable::config::{CaldavConfig, Config};
use retaskable::conflict::apply_keep_mine_inner;
use retaskable::db::{
    create_local_with_anchor, enqueue_create, enqueue_create_at, enqueue_create_with_anchor,
    enqueue_edit_at, enqueue_toggle_at,
};
use retaskable::failure::Failure;
use retaskable::http::{Answer, Reply, Request, Step};
use retaskable::listing::list_tasks;
use retaskable::pending::clear_errored;
use retaskable::queue::FlushSummary;
use retaskable::session::{
    apply_decision, resolve_first_conflict, stage_is_sound, sync_step, SyncAction, SyncStage,
};
use retaskable::store::{PendingOp, Store, TaskRow};
use retaskable::sync::sync_collection_unsupported;

const LIST: &str = "https://dav.test/c/alice/tasks/";

fn at() -> Moment {
    Moment { stamp: "20260601T120000Z".to_string(), secs: 1_700_000_000 }
}

fn config(active: Option<&str>) -> Config {
    Config {
        active_list: active.map(|s| s.to_string()),
        caldav: CaldavConfig {
            provider: "generic".to_string(),
            base_url: "https://dav.test".to_string(),
            username: "alice".to_string(),
            app_password: "p".to_string(),
            calendar_href: Some(LIST.to_string()),
            calendar: None,
        },
    }
}

fn answer(status: u16, text: &str, url: &str, etag: Option<&str>, body: &str) -> Reply {
    Reply::Answered(Answer {
        status,
        status_text: text.to_string(),
        etag: etag.map(|s| s.to_string()),
        body: Ok(body.to_string()),
        final_url: url.to_string(),
    })
}

fn multi(url: &str, inner: &str) -> Reply {
    let body = format!(
        "<?xml version=\"1.0\"?><d:multistatus xmlns:d=\"DAV:\" \
         xmlns:c=\"urn:ietf:params:xml:ns:caldav\">{inner}</d:multistatus>"
    );
    answer(207, "207 Multi-Status", url, None, &body)
}

fn found(property: &str, href: &str) -> String {
    format!(
        "<d:response><d:propstat><d:prop><{property}><d:href>{href}</d:href></{property}></d:prop>\
         <d:status>HTTP/1.1 200 OK</d:status></d:propstat></d:response>"
    )
}

fn server(r: &Request) -> Reply {
    match (r.method.as_str(), r.url.as_str()) {
        ("PROPFIND", "https://dav.test/.well-known/caldav") => {
            multi(&r.url, &found("d:current-user-principal", "/p/alice/"))
        }
        ("PROPFIND", "https://dav.test/p/alice/") => {
            multi(&r.url, &found("c:calendar-home-set", "/c/alice/"))
        }
        ("PROPFIND", "https://dav.test/c/alice/") => multi(
            &r.url,
            "<d:response><d:href>/c/alice/tasks/</d:href><d:propstat><d:prop>\
             <d:displayname>Tasks</d:displayname>\
             <d:resourcetype><d:collection/><c:calendar/></d:resourcetype>\
             <c:supported-calendar-component-set><c:comp name=\"VTODO\"/></c:supported-calendar-component-set>\
             </d:prop><d:status>HTTP/1.1 200 OK</d:status></d:propstat></d:response>",
        ),
        ("PUT", _) => answer(201, "201 Created", &r.url, Some("e1"), ""),
        ("REPORT", _) => multi(
            &r.url,
            "<d:response><d:href>/c/alice/tasks/u1.ics</d:href><d:propstat><d:prop>\
             <d:getetag>e1</d:getetag><c:calendar-data>BEGIN:VCALENDAR\nVERSION:2.0\nBEGIN:VTODO\nUID:u1\n\
             SUMMARY:Queued\nSTATUS:NEEDS-ACTION\nEND:VTODO\nEND:VCALENDAR\n</c:calendar-data></d:prop>\
             <d:status>HTTP/1.1 200 OK</d:status></d:propstat></d:response>\
             <d:sync-token>t1</d:sync-token>",
        ),
        _ => panic!("unexpected request {} {}", r.method, r.url),
    }
}

fn run(
    store: &mut Store,
    cfg: &Config,
    mut answer: impl FnMut(&Request) -> Reply,
) -> (Result<String, Failure>, Vec<String>) {
    let mut stage = SyncStage::Finding;
    let mut replies: Vec<Reply> = Vec::new();
    let mut sent: Vec<String> = Vec::new();
    loop {
        assert!(stage_is_sound(&stage, store));
        match sync_step(store, cfg, &stage, &replies, &at()) {
            SyncAction::Send(r) => {
                sent.push(r.method.clone());
                let reply = answer(&r);
                replies.push(reply);
            }
            SyncAction::Next(next) => {
                stage = next;
                replies.clear();
            }
            SyncAction::Done(result) => return (result, sent),
        }
    }
}

fn silent(_: &Request) -> Reply {
    panic!("no request expected")
}

#[test]
fn a_sync_finds_flushes_and_pulls() {
    let mut store = Store::new();
    upsert_calendar(&mut store, LIST, "Old name");
    enqueue_create(&mut store, LIST, "u1", "Queued").unwrap();
    create_local_with_anchor(&mut store, "l", "Mine", None, None, "20260601T000000Z").unwrap();
    let (result, sent) = run(&mut store, &config(None), server);
    assert_eq!(
        result.unwrap(),
        "Flushed 1 / 0 errored (0 retried).\nSync complete: full, +1 updated, -0 deleted."
    );
    assert_eq!(sent, vec!["PROPFIND", "PROPFIND", "PROPFIND", "PUT", "REPORT"]);
    assert_eq!(store.ops.len(), 0);
    assert_eq!(list_tasks(&store, LIST).len(), 1);
    assert_eq!(store.tasks.iter().filter(|t| t.uid == "l").count(), 1, "the local list stays");
    assert_eq!(get_sync_token(&store, LIST).as_deref(), Some("t1"));
    assert_eq!(last_synced(&store, LIST), Some(1_700_000_000));
    assert!(store.calendars.iter().any(|c| c.href == LIST && c.display_name == "Tasks"));

    let (again, _) = run(&mut store, &config(None), server);
    assert_eq!(again.unwrap(), "Sync complete: incremental, +1 updated, -0 deleted.");
}

#[test]
fn a_failing_network_skips_the_pull() {
    let mut store = Store::new();
    enqueue_create(&mut store, LIST, "u1", "Queued").unwrap();
    let (result, sent) = run(&mut store, &config(None), |r| {
        if r.method == "PUT" {
            answer(503, "503 Service Unavailable", &r.url, None, "")
        } else {
            server(r)
        }
    });
    assert_eq!(
        result.unwrap(),
        "Flushed 0 / 0 errored (0 retried).\nnetwork failed; sync-collection skipped"
    );
    assert_eq!(sent.last().map(String::as_str), Some("PUT"));
    assert_eq!(store.ops.len(), 1);
    assert_eq!(last_synced(&store, LIST), None);
}

#[test]
fn without_an_account_nothing_is_sent() {
    let mut store = Store::new();
    let (result, _) = run(&mut store, &Config::default(), silent);
    assert_eq!(result.unwrap(), "Local tasks saved. No CalDAV account configured.");
}

#[test]
fn a_list_that_is_not_there_ends_the_sync() {
    let mut store = Store::new();
    let mut cfg = config(None);
    cfg.caldav.calendar_href = Some("https://dav.test/other/".to_string());
    let (result, _) = run(&mut store, &cfg, server);
    assert!(result.unwrap_err().message.contains("[\"Tasks\"]"));
    assert!(store.calendars.is_empty());
}

#[test]
fn the_local_list_has_no_conflicts() {
    let mut store = Store::new();
    let cfg = Config::default();
    match resolve_first_conflict(&mut store, &cfg, &vec![]) {
        Step::Done(Ok(t)) => assert_eq!(t, "OPID:0\nNo conflicts to resolve."),
        _ => panic!("no request is due"),
    }
    match apply_decision(&mut store, &cfg, "take:1", &vec![]) {
        Step::Done(Err(e)) => assert_eq!(e.message, "local tasks do not have sync conflicts"),
        _ => panic!("the decision is refused"),
    }
}

#[test]
fn a_conflict_of_the_list_in_hand_is_resolved() {
    let mut store = Store::new();
    upsert_calendar(&mut store, LIST, "Tasks");
    let body = |summary: &str| {
        format!("BEGIN:VCALENDAR\r\nVERSION:2.0\r\nBEGIN:VTODO\r\nUID:u\r\nSUMMARY:{summary}\r\nEND:VTODO\r\nEND:VCALENDAR\r\n")
    };
    store.tasks.push(TaskRow {
        calendar_href: LIST.to_string(),
        href: format!("{LIST}u.ics"),
        etag: "e".to_string(),
        ical_text: body("Mine"),
        summary: "Mine".to_string(),
        status: Some("needs-action".to_string()),
        due: None,
        uid: "u".to_string(),
        pending_delete: false,
        anchor: None,
    });
    store.last_op_id = 1;
    store.ops.push(PendingOp {
        id: 1,
        op_type: "edit".to_string(),
        target_uid: "u".to_string(),
        target_calendar_href: LIST.to_string(),
        payload: None,
        enqueued_at: 0,
        error_count: 0,
        last_error: Some("double-412 (server-side conflict)".to_string()),
        errored: 1,
    });
    assert!(store.is_sound());
    let cfg = config(Some(LIST));
    let replies = vec![answer(200, "200 OK", LIST, Some("e2"), &body("Theirs"))];
    match resolve_first_conflict(&mut store, &cfg, &replies) {
        Step::Done(Ok(t)) => assert!(t.starts_with("OPID:1\nConflict on \"Theirs\""), "{t}"),
        _ => panic!("the preview is due"),
    }
    match apply_decision(&mut store, &cfg, "take:1", &replies) {
        Step::Done(Ok(t)) => assert!(t.starts_with("Took server version: \"Theirs\""), "{t}"),
        _ => panic!("the decision is carried out"),
    }
    assert_eq!(list_tasks(&store, LIST)[0].summary, "Theirs");
    assert!(store.ops.is_empty());
}

#[test]
fn broken_tables_are_noticed() {
    let mut store = Store::new();
    assert!(store.is_sound());
    upsert_calendar(&mut store, LIST, "Tasks");
    enqueue_create(&mut store, LIST, "a", "A").unwrap();
    enqueue_create(&mut store, LIST, "b", "B").unwrap();
    assert!(store.is_sound());
    store.ops[0].errored = 2;
    assert!(!store.is_sound());
    store.ops[0].errored = 1;
    store.ops.swap(0, 1);
    assert!(!store.is_sound());
    store.ops.swap(0, 1);
    store.last_op_id = 1;
    assert!(!store.is_sound());
    store.last_op_id = 2;
    store.tasks[1].href = store.tasks[0].href.clone();
    assert!(!store.is_sound());
}

#[test]
fn a_stage_whose_counters_are_full_is_noticed() {
    let mut store = Store::new();
    let mut summary = FlushSummary::default();
    summary.flushed = usize::MAX;
    let stage =
        SyncStage::Flushing { href: LIST.to_string(), url: LIST.to_string(), summary, hand: None };
    assert!(stage_is_sound(&stage, &store));
    enqueue_create(&mut store, LIST, "a", "A").unwrap();
    assert!(!stage_is_sound(&stage, &store));
}

#[test]
fn a_server_without_the_sync_report_is_recognised() {
    assert!(sync_collection_unsupported(
        "REPORT sync-collection: https://x/ -> 400 Bad Request: caldav: unsupported REPORT root \"DAV:\" \"sync-collection\""
    ));
    assert!(!sync_collection_unsupported("PUT https://x/a.ics -> 412 Precondition Failed: no"));
    assert!(!sync_collection_unsupported("PUT https://x/a.ics -> 400 Bad Request: no"));
}

#[test]
fn such_a_server_is_asked_by_query() {
    let mut store = Store::new();
    let mut reports = 0;
    let (result, _) = run(&mut store, &config(None), |r| {
        if r.method == "REPORT" {
            reports += 1;
            if reports == 1 {
                return answer(
                    400,
                    "400 Bad Request",
                    &r.url,
                    None,
                    "caldav: unsupported REPORT root \"DAV:\" \"sync-collection\"",
                );
            }
            assert!(r.body.as_deref().unwrap().contains("calendar-query"));
            return multi(&r.url, "");
        }
        server(r)
    });
    assert_eq!(result.unwrap(), "Sync complete: full, +0 updated, -0 deleted.");
    assert_eq!(reports, 2);
    assert_eq!(get_sync_token(&store, LIST), None);
    assert_eq!(last_synced(&store, LIST), Some(1_700_000_000));
}

fn later() -> Moment {
    Moment { stamp: "20260601T130000Z".to_string(), secs: 1_700_003_600 }
}

fn in_hand(store: &mut Store, cfg: &Config, m: &Moment) -> SyncStage {
    let stage = SyncStage::Flushing {
        href: LIST.to_string(),
        url: LIST.to_string(),
        summary: FlushSummary::default(),
        hand: None,
    };
    match sync_step(store, cfg, &stage, &vec![], m) {
        SyncAction::Next(next) => next,
        _ => panic!("an operation is taken up"),
    }
}

fn body_of(action: SyncAction) -> String {
    match action {
        SyncAction::Send(r) => {
            assert_eq!(r.method, "PUT");
            r.body.unwrap()
        }
        _ => panic!("a write is due"),
    }
}

#[test]
fn the_text_kept_is_the_text_sent() {
    let cfg = config(None);
    let mut store = Store::new();
    upsert_calendar(&mut store, LIST, "Tasks");
    enqueue_create_at(&mut store, LIST, "a", "A", None, None, "20260601T110000Z", 5).unwrap();
    let stage = in_hand(&mut store, &cfg, &at());
    let sent = body_of(sync_step(&mut store, &cfg, &stage, &vec![], &at()));
    assert_eq!(sent, store.tasks[0].ical_text);
    // The reply comes an hour later.
    let replies = vec![answer(201, "201 Created", LIST, Some("e1"), "")];
    let next = sync_step(&mut store, &cfg, &stage, &replies, &later());
    assert!(matches!(next, SyncAction::Next(SyncStage::Flushing { hand: None, .. })));
    assert_eq!(store.tasks[0].ical_text, sent);
    assert!(sent.contains("DTSTAMP:20260601T110000Z\r\n"));
    assert!(store.ops.is_empty());
}

#[test]
fn a_retry_keeps_the_text_of_the_second_write() {
    let cfg = config(None);
    let mut store = Store::new();
    upsert_calendar(&mut store, LIST, "Tasks");
    let href = format!("{LIST}a.ics");
    store.tasks.push(TaskRow {
        calendar_href: LIST.to_string(),
        href: href.clone(),
        etag: "e0".to_string(),
        ical_text: "BEGIN:VCALENDAR\r\nBEGIN:VTODO\r\nUID:a\r\nSUMMARY:A\r\nEND:VTODO\r\nEND:VCALENDAR\r\n"
            .to_string(),
        summary: "A".to_string(),
        status: None,
        due: None,
        uid: "a".to_string(),
        pending_delete: false,
        anchor: None,
    });
    enqueue_edit_at(&mut store, LIST, "a", "B", Some("20270101"), "20260601T110000Z", 5).unwrap();
    assert_eq!(
        store.ops[0].payload.as_deref(),
        Some(r#"{"due":"20270101","summary":"B"}"#)
    );
    let stage = in_hand(&mut store, &cfg, &at());
    let first = body_of(sync_step(&mut store, &cfg, &stage, &vec![], &at()));
    assert_eq!(first, store.tasks[0].ical_text);
    assert!(first.contains("SUMMARY:B\r\n") && first.contains("DUE;VALUE=DATE:20270101\r\n"));
    let fresh = "BEGIN:VCALENDAR\r\nBEGIN:VTODO\r\nUID:a\r\nSUMMARY:Theirs\r\nDUE:20200101T000000Z\r\n\
        X-THEIRS:1\r\nEND:VTODO\r\nEND:VCALENDAR\r\n";
    let mut replies = vec![
        answer(412, "412 Precondition Failed", &href, None, ""),
        answer(200, "200 OK", &href, Some("e5"), fresh),
    ];
    // Meanwhile the user edits the task again.
    enqueue_edit_at(&mut store, LIST, "a", "C", None, "20260601T123000Z", 6).unwrap();
    let second = body_of(sync_step(&mut store, &cfg, &stage, &replies, &later()));
    assert!(second.contains("SUMMARY:B\r\n") && second.contains("X-THEIRS:1\r\n"));
    assert!(second.contains("DUE;VALUE=DATE:20270101\r\n") && !second.contains("20200101"));
    assert!(second.contains("DTSTAMP:20260601T120000Z\r\n"));
    replies.push(answer(204, "204 No Content", &href, Some("e6"), ""));
    let next = sync_step(&mut store, &cfg, &stage, &replies, &later());
    assert!(matches!(next, SyncAction::Next(SyncStage::Flushing { hand: None, .. })));
    // What was kept is what was sent, with the edit that still waits.
    assert_eq!(store.tasks[0].ical_text, second.replace("SUMMARY:B\r\n", "SUMMARY:C\r\n"));
    assert_eq!(store.tasks[0].etag, "e6");
    assert_eq!(store.ops.len(), 1);
    // That edit is sent next, over what the server has now.
    let stage = in_hand(&mut store, &cfg, &later());
    let third = match sync_step(&mut store, &cfg, &stage, &vec![], &later()) {
        SyncAction::Send(r) => {
            assert!(r.headers.iter().any(|h| h.0 == "If-Match" && h.1 == "e6"));
            r.body.unwrap()
        }
        _ => panic!("a write is due"),
    };
    assert!(third.contains("SUMMARY:C\r\n") && !third.contains("SUMMARY:B"));
    assert!(third.contains("X-THEIRS:1\r\n") && third.contains("DUE;VALUE=DATE:20270101\r\n"));
    let replies = vec![answer(204, "204 No Content", &href, Some("e7"), "")];
    sync_step(&mut store, &cfg, &stage, &replies, &later());
    assert_eq!(store.tasks[0].ical_text, third);
    assert_eq!(store.tasks[0].etag, "e7");
    assert!(store.ops.is_empty());
}

/// Runs a sync against a server that holds one task, and returns what it holds at the end.
fn run_on_one(store: &mut Store, cfg: &Config) -> (Result<String, Failure>, Vec<String>) {
    let mut bodies: Vec<String> = Vec::new();
    let (result, _) = run(store, cfg, |r| match r.method.as_str() {
        "PUT" => {
            bodies.push(r.body.clone().unwrap());
            let etag = format!("e{}", bodies.len());
            answer(204, "204 No Content", &r.url, Some(&etag), "")
        }
        "REPORT" => {
            let last = bodies.last().unwrap();
            multi(
                &r.url,
                &format!(
                    "<d:response><d:href>/c/alice/tasks/a.ics</d:href><d:propstat><d:prop>\
                     <d:getetag>e{}</d:getetag><c:calendar-data>{last}</c:calendar-data></d:prop>\
                     <d:status>HTTP/1.1 200 OK</d:status></d:propstat></d:response>\
                     <d:sync-token>t1</d:sync-token>",
                    bodies.len()
                ),
            )
        }
        _ => server(r),
    });
    (result, bodies)
}

#[test]
fn what_is_changed_behind_a_create_reaches_the_server() {
    let cfg = config(None);
    let mut store = Store::new();
    upsert_calendar(&mut store, LIST, "Tasks");
    enqueue_create(&mut store, LIST, "a", "A").unwrap();
    enqueue_edit_at(&mut store, LIST, "a", "B", Some("20270101"), "20260601T110000Z", 5).unwrap();
    enqueue_toggle_at(&mut store, LIST, "a", "20260601T111500Z", 6).unwrap();
    let (result, bodies) = run_on_one(&mut store, &cfg);
    assert!(result.unwrap().starts_with("Flushed 3 / 0 errored (0 retried)."));
    assert_eq!(bodies.len(), 3);
    let last = bodies.last().unwrap();
    assert!(last.contains("SUMMARY:B\r\n") && last.contains("DUE;VALUE=DATE:20270101\r\n"));
    assert!(last.contains("STATUS:COMPLETED\r\n") && last.contains("PERCENT-COMPLETE:100\r\n"));
    assert!(last.contains("COMPLETED:20260601T111500Z\r\n"));
    let tasks = list_tasks(&store, LIST);
    assert_eq!(tasks.len(), 1);
    assert_eq!(tasks[0].summary, "B");
    assert!(store.ops.is_empty());
}

#[test]
fn each_edit_is_sent_in_its_turn() {
    let cfg = config(None);
    let mut store = Store::new();
    upsert_calendar(&mut store, LIST, "Tasks");
    enqueue_create(&mut store, LIST, "a", "A").unwrap();
    enqueue_edit_at(&mut store, LIST, "a", "B", Some("20270101"), "20260601T110000Z", 5).unwrap();
    enqueue_edit_at(&mut store, LIST, "a", "C", None, "20260601T110500Z", 6).unwrap();
    let (result, bodies) = run_on_one(&mut store, &cfg);
    assert!(result.is_ok());
    assert_eq!(bodies.len(), 3);
    assert!(bodies[0].contains("SUMMARY:C\r\n"));
    assert!(bodies[1].contains("SUMMARY:B\r\n") && bodies[1].contains("20270101"));
    assert!(bodies[2].contains("SUMMARY:C\r\n") && bodies[2].contains("20270101"));
    assert_eq!(store.tasks[0].summary, "C");
}

#[test]
fn a_toggle_that_waits_stays_in_the_text() {
    let cfg = config(None);
    let mut store = Store::new();
    upsert_calendar(&mut store, LIST, "Tasks");
    let href = format!("{LIST}a.ics");
    store.tasks.push(TaskRow {
        calendar_href: LIST.to_string(),
        href: href.clone(),
        etag: "e0".to_string(),
        ical_text: "BEGIN:VCALENDAR\r\nBEGIN:VTODO\r\nUID:a\r\nSUMMARY:A\r\nSTATUS:NEEDS-ACTION\r\n\
            END:VTODO\r\nEND:VCALENDAR\r\n"
            .to_string(),
        summary: "A".to_string(),
        status: Some("needs-action".to_string()),
        due: None,
        uid: "a".to_string(),
        pending_delete: false,
        anchor: None,
    });
    enqueue_edit_at(&mut store, LIST, "a", "B", None, "20260601T110000Z", 5).unwrap();
    let stage = in_hand(&mut store, &cfg, &at());
    enqueue_toggle_at(&mut store, LIST, "a", "20260601T111500Z", 6).unwrap();
    let fresh = "BEGIN:VCALENDAR\r\nBEGIN:VTODO\r\nUID:a\r\nSUMMARY:Theirs\r\nSTATUS:NEEDS-ACTION\r\n\
        END:VTODO\r\nEND:VCALENDAR\r\n";
    let replies = vec![
        answer(412, "412 Precondition Failed", &href, None, ""),
        answer(200, "200 OK", &href, Some("e5"), fresh),
        answer(204, "204 No Content", &href, Some("e6"), ""),
    ];
    sync_step(&mut store, &cfg, &stage, &replies, &at());
    let text = &store.tasks[0].ical_text;
    assert!(text.contains("SUMMARY:B\r\n") && text.contains("STATUS:COMPLETED\r\n"));
    assert_eq!(store.ops.len(), 1);
    let stage = in_hand(&mut store, &cfg, &later());
    let sent = body_of(sync_step(&mut store, &cfg, &stage, &vec![], &later()));
    assert_eq!(sent, store.tasks[0].ical_text);
}

#[test]
fn keep_mine_sends_the_users_version_after_a_pull() {
    let cfg = config(None);
    let mut store = Store::new();
    upsert_calendar(&mut store, LIST, "Tasks");
    let href = format!("{LIST}a.ics");
    store.tasks.push(TaskRow {
        calendar_href: LIST.to_string(),
        href: href.clone(),
        etag: "e0".to_string(),
        ical_text: "BEGIN:VCALENDAR\r\nBEGIN:VTODO\r\nUID:a\r\nSUMMARY:A\r\nEND:VTODO\r\nEND:VCALENDAR\r\n"
            .to_string(),
        summary: "A".to_string(),
        status: Some("unknown".to_string()),
        due: None,
        uid: "a".to_string(),
        pending_delete: false,
        anchor: None,
    });
    enqueue_edit_at(&mut store, LIST, "a", "Mine", None, "20260601T110000Z", 5).unwrap();
    let theirs = "BEGIN:VCALENDAR\nBEGIN:VTODO\nUID:a\nSUMMARY:Theirs\nEND:VTODO\nEND:VCALENDAR\n";
    let busy = |r: &Request| match r.method.as_str() {
        "PUT" => answer(412, "412 Precondition Failed", &r.url, None, ""),
        "GET" => answer(200, "200 OK", &r.url, Some("e9"), theirs),
        "REPORT" => multi(
            &r.url,
            &format!(
                "<d:response><d:href>/c/alice/tasks/a.ics</d:href><d:propstat><d:prop>\
                 <d:getetag>e9</d:getetag><c:calendar-data>{theirs}</c:calendar-data></d:prop>\
                 <d:status>HTTP/1.1 200 OK</d:status></d:propstat></d:response>\
                 <d:sync-token>t1</d:sync-token>"
            ),
        ),
        _ => server(r),
    };
    let (result, sent) = run(&mut store, &cfg, busy);
    assert!(result.unwrap().starts_with("Flushed 0 / 1 errored"));
    assert!(sent.contains(&"REPORT".to_string()));
    assert_eq!(get_sync_token(&store, LIST).as_deref(), Some("t1"));
    assert_eq!(store.tasks[0].summary, "Mine");
    assert!(store.tasks[0].ical_text.contains("SUMMARY:Mine\r\n"));
    let mine = store.tasks[0].ical_text.clone();
    let id = store.ops[0].id;
    match apply_keep_mine_inner(
        &mut store,
        LIST,
        id,
        &vec![answer(200, "200 OK", &href, Some("e9"), theirs)],
    ) {
        Step::Send(r) => assert_eq!(r.body.as_deref(), Some(mine.as_str())),
        _ => panic!("a write is due"),
    }
    // Where the user drops the change instead, the next sync brings the server's version.
    assert_eq!(clear_errored(&mut store), 1);
    assert_eq!(get_sync_token(&store, LIST), None);
    let (result, _) = run(&mut store, &cfg, busy);
    assert!(result.is_ok());
    assert_eq!(store.tasks[0].summary, "Theirs");
    assert_eq!(store.tasks[0].etag, "e9");
}

#[test]
fn what_became_of_an_operation_goes_by_its_id() {
    let cfg = config(None);
    let mut store = Store::new();
    upsert_calendar(&mut store, LIST, "Tasks");
    enqueue_create(&mut store, LIST, "a", "A").unwrap();
    let stage = in_hand(&mut store, &cfg, &at());
    let sent = body_of(sync_step(&mut store, &cfg, &stage, &vec![], &at()));
    // The operation is gone when its reply comes.
    let op = store.ops.pop().unwrap();
    assert!(stage_is_sound(&stage, &store));
    let replies = vec![answer(201, "201 Created", LIST, Some("e1"), "")];
    match sync_step(&mut store, &cfg, &stage, &replies, &at()) {
        SyncAction::Next(SyncStage::Flushing { summary, hand: None, .. }) => {
            assert_eq!(summary.flushed, 1);
        }
        _ => panic!("the queue goes on"),
    }
    assert_eq!(store.tasks[0].ical_text, sent);
    assert_eq!(store.tasks[0].etag, "e1");
    // One that has failed before meanwhile still stops the pass on a failure that may pass.
    store.ops.push(PendingOp { error_count: 2, ..op });
    let failed = vec![answer(503, "503 Service Unavailable", LIST, None, "")];
    match sync_step(&mut store, &cfg, &stage, &failed, &at()) {
        SyncAction::Done(Ok(_)) => {}
        _ => panic!("the sync ends"),
    }
    assert_eq!(store.ops[0].error_count, 3);
    store.ops.clear();
    match sync_step(&mut store, &cfg, &stage, &failed, &at()) {
        SyncAction::Done(Err(e)) => assert_eq!(e.message, "Query returned no rows"),
        _ => panic!("there is nothing to count the failure on"),
    }
}

#[test]
fn a_due_date_reaches_the_server() {
    let cfg = config(None);
    let mut store = Store::new();
    upsert_calendar(&mut store, LIST, "Tasks");
    enqueue_create_with_anchor(&mut store, LIST, "u1", "A", None, Some("20270101T080000")).unwrap();
    let mut bodies: Vec<String> = Vec::new();
    let (result, _) = run(&mut store, &cfg, |r| {
        if r.method == "PUT" {
            bodies.push(r.body.clone().unwrap());
        }
        server(r)
    });
    assert!(result.is_ok());
    assert_eq!(bodies.len(), 1);
    assert!(bodies[0].contains("\r\nDUE:20270101T080000\r\n"), "{}", bodies[0]);
}
