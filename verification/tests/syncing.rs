use retaskable::cache::{get_sync_token, last_synced, upsert_calendar};
use retaskable::config::{CaldavConfig, Config};
use retaskable::db::{enqueue_create, enqueue_delete};
use retaskable::failure::Failure;
use retaskable::http::{dav_outcome, Answer, Reply, Request, Step};
use retaskable::listing::list_tasks;
use retaskable::multistatus::{
    parse_calendars, parse_href_property, parse_sync_response, Calendar,
};
use retaskable::reconcile::{apply_delta, pick_calendar};
use retaskable::store::{Store, TaskRow};
use retaskable::sync::{
    discover_calendars, probe, sync_collection_body, sync_collection_unsupported,
    sync_collection_with_fallback,
};
use retaskable::weburl::{build_create_url, build_task_url};

const CAL: &str = "https://dav.test/cal/";

fn answer(status: u16, text: &str, url: &str, body: &str) -> Reply {
    Reply::Answered(Answer {
        status,
        status_text: text.to_string(),
        etag: None,
        body: Ok(body.to_string()),
        final_url: url.to_string(),
    })
}

fn multi(url: &str, inner: &str) -> Reply {
    answer(207, "207 Multi-Status", url, &document(inner))
}

fn document(inner: &str) -> String {
    format!(
        "<?xml version=\"1.0\"?><d:multistatus xmlns:d=\"DAV:\" \
         xmlns:c=\"urn:ietf:params:xml:ns:caldav\">{inner}</d:multistatus>"
    )
}

fn todo(uid: &str, summary: &str, status: &str) -> String {
    format!(
        "BEGIN:VCALENDAR\nVERSION:2.0\nBEGIN:VTODO\nUID:{uid}\nSUMMARY:{summary}\nSTATUS:{status}\nEND:VTODO\nEND:VCALENDAR\n"
    )
}

fn changed(href: &str, etag: &str, ical: &str) -> String {
    format!(
        "<d:response><d:href>{href}</d:href><d:propstat><d:prop><d:getetag>{etag}</d:getetag>\
         <c:calendar-data>{ical}</c:calendar-data></d:prop>\
         <d:status>HTTP/1.1 200 OK</d:status></d:propstat></d:response>"
    )
}

fn removed(href: &str) -> String {
    format!(
        "<d:response><d:href>{href}</d:href><d:status>HTTP/1.1 404 Not Found</d:status></d:response>"
    )
}

fn header<'a>(r: &'a Request, name: &str) -> Option<&'a str> {
    r.headers
        .iter()
        .find(|h| h.0.eq_ignore_ascii_case(name))
        .map(|h| h.1.as_str())
}

fn account() -> CaldavConfig {
    CaldavConfig {
        provider: "generic".to_string(),
        base_url: "https://dav.test".to_string(),
        username: "alice".to_string(),
        app_password: "p".to_string(),
        calendar_href: None,
        calendar: None,
    }
}

#[test]
fn a_sync_answer_is_read() {
    let inner = format!(
        "{}{}<d:sync-token>tok-2</d:sync-token>",
        changed("/cal/a.ics", "\"e1\"", &todo("a", "Apples", "NEEDS-ACTION")),
        removed("/cal/b.ics")
    );
    let d = parse_sync_response(&document(&inner), CAL).unwrap();
    assert_eq!(d.new_sync_token.as_deref(), Some("tok-2"));
    assert_eq!(d.added_or_updated.len(), 1);
    assert_eq!(d.added_or_updated[0].href, "https://dav.test/cal/a.ics");
    assert_eq!(d.added_or_updated[0].etag, "\"e1\"");
    assert_eq!(d.added_or_updated[0].task.uid, "a");
    assert_eq!(d.added_or_updated[0].task.summary, "Apples");
    assert!(d.added_or_updated[0].ical_text.contains("SUMMARY:Apples\r\n"));
    assert_eq!(d.deleted_hrefs, vec!["https://dav.test/cal/b.ics"]);
    assert!(parse_sync_response("<broken", CAL).is_err());
}

#[test]
fn a_full_sync_makes_the_cache_the_list() {
    let mut store = Store::new();
    upsert_calendar(&mut store, CAL, "Cal");
    store.tasks.push(TaskRow {
        calendar_href: CAL.to_string(),
        href: "https://dav.test/cal/old.ics".to_string(),
        etag: "e".to_string(),
        ical_text: "".to_string(),
        summary: "Old".to_string(),
        status: None,
        due: None,
        uid: "old".to_string(),
        pending_delete: false,
        anchor: None,
    });
    enqueue_create(&mut store, CAL, "fresh", "Queued").unwrap();
    let inner = format!(
        "{}<d:sync-token>t1</d:sync-token>",
        changed("/cal/a.ics", "e1", &todo("a", "Apples", "NEEDS-ACTION"))
    );
    let d = parse_sync_response(&document(&inner), CAL).unwrap();
    let (up, down) = apply_delta(&mut store, CAL, &d, true, 77);
    assert_eq!(up, 1);
    assert_eq!(down, 2, "every row that the server did not name is dropped");
    let names: Vec<String> = list_tasks(&store, CAL).into_iter().map(|t| t.summary).collect();
    assert_eq!(names, vec!["Apples"]);
    assert_eq!(get_sync_token(&store, CAL).as_deref(), Some("t1"));
    assert_eq!(last_synced(&store, CAL), Some(77));
    assert_eq!(store.ops.len(), 1, "the queue is left alone");
}

#[test]
fn an_incremental_sync_touches_only_what_it_names() {
    let mut store = Store::new();
    upsert_calendar(&mut store, CAL, "Cal");
    let first = parse_sync_response(
        &document(&format!(
            "{}{}",
            changed("/cal/a.ics", "e1", &todo("a", "Apples", "NEEDS-ACTION")),
            changed("/cal/b.ics", "e1", &todo("b", "Bread", "NEEDS-ACTION"))
        )),
        CAL,
    )
    .unwrap();
    apply_delta(&mut store, CAL, &first, true, 1);
    enqueue_delete(&mut store, CAL, "b").unwrap();
    let second = parse_sync_response(
        &document(&format!(
            "{}{}",
            removed("/cal/a.ics"),
            changed("/cal/b.ics", "e2", &todo("b", "Bread!", "NEEDS-ACTION"))
        )),
        CAL,
    )
    .unwrap();
    let (up, down) = apply_delta(&mut store, CAL, &second, false, 2);
    assert_eq!((up, down), (1, 1));
    assert_eq!(list_tasks(&store, CAL).len(), 0, "a deleted task stays hidden");
    assert_eq!(store.tasks.len(), 1);
    assert!(store.tasks[0].pending_delete);
}

#[test]
fn a_known_token_asks_for_the_changes_and_a_refused_one_for_all() {
    match sync_collection_with_fallback(CAL, Some("tok<1"), &vec![]) {
        Step::Send(r) => {
            assert_eq!(r.method, "REPORT");
            assert_eq!(r.url, CAL);
            assert!(r.body.as_deref().unwrap().contains("tok&lt;1"));
        }
        Step::Done(_) => panic!("a request is due"),
    }
    let ok = vec![multi(CAL, "<d:sync-token>t</d:sync-token>")];
    match sync_collection_with_fallback(CAL, Some("tok"), &ok) {
        Step::Done(Ok((d, full))) => {
            assert!(!full);
            assert_eq!(d.new_sync_token.as_deref(), Some("t"));
        }
        _ => panic!("the changes are in"),
    }
    match sync_collection_with_fallback(CAL, None, &ok) {
        Step::Done(Ok((_, full))) => assert!(full),
        _ => panic!("a first sync is a full one"),
    }
    let mut replies = vec![answer(403, "403 Forbidden", CAL, "valid-sync-token")];
    match sync_collection_with_fallback(CAL, Some("tok"), &replies) {
        Step::Send(r) => assert!(!r.body.as_deref().unwrap().contains("<d:sync-token>tok")),
        Step::Done(_) => panic!("a full sync is tried"),
    }
    replies.push(multi(CAL, "<d:sync-token>t2</d:sync-token>"));
    match sync_collection_with_fallback(CAL, Some("tok"), &replies) {
        Step::Done(Ok((_, full))) => assert!(full),
        _ => panic!("the full list is in"),
    }
}

#[test]
fn the_token_goes_into_the_body() {
    assert!(sync_collection_body(Some("a&b")).contains("a&amp;b"));
    assert!(!sync_collection_body(None).contains("a&amp;b"));
    assert!(!sync_collection_unsupported("plain sailing"));
}

#[test]
fn the_lists_of_an_account_are_found_in_three_steps() {
    let cfg = account();
    let mut replies: Vec<Reply> = Vec::new();
    match discover_calendars(&cfg, &replies) {
        Step::Send(r) => {
            assert_eq!(r.url, "https://dav.test/.well-known/caldav");
            assert_eq!(header(&r, "Depth"), Some("0"));
        }
        Step::Done(_) => panic!("the principal is asked for"),
    }
    replies.push(multi(
        "https://dav.test/dav/",
        "<d:response><d:propstat><d:prop><d:current-user-principal><d:href>/p/alice/</d:href>\
         </d:current-user-principal></d:prop><d:status>HTTP/1.1 200 OK</d:status></d:propstat></d:response>",
    ));
    match discover_calendars(&cfg, &replies) {
        Step::Send(r) => assert_eq!(r.url, "https://dav.test/p/alice/"),
        Step::Done(_) => panic!("the home is asked for"),
    }
    replies.push(multi(
        "https://dav.test/p/alice/",
        "<d:response><d:propstat><d:prop><c:calendar-home-set><d:href>/c/alice/</d:href>\
         </c:calendar-home-set></d:prop><d:status>HTTP/1.1 200 OK</d:status></d:propstat></d:response>",
    ));
    match discover_calendars(&cfg, &replies) {
        Step::Send(r) => {
            assert_eq!(r.url, "https://dav.test/c/alice/");
            assert_eq!(header(&r, "Depth"), Some("1"));
        }
        Step::Done(_) => panic!("the lists are asked for"),
    }
    let list = |href: &str, name: &str, comp: &str| {
        format!(
            "<d:response><d:href>{href}</d:href><d:propstat><d:prop><d:displayname>{name}</d:displayname>\
             <d:resourcetype><d:collection/><c:calendar/></d:resourcetype>\
             <c:supported-calendar-component-set><c:comp name=\"{comp}\"/></c:supported-calendar-component-set>\
             </d:prop><d:status>HTTP/1.1 200 OK</d:status></d:propstat></d:response>"
        )
    };
    replies.push(multi(
        "https://dav.test/c/alice/",
        &format!("{}{}", list("/c/alice/tasks/", "Tasks", "VTODO"), list("/c/alice/ev/", "Events", "VEVENT")),
    ));
    match discover_calendars(&cfg, &replies) {
        Step::Done(Ok(found)) => {
            assert_eq!(found.len(), 1, "only lists of tasks count");
            assert_eq!(found[0].display_name, "Tasks");
            assert_eq!(found[0].href, "https://dav.test/c/alice/tasks/");
        }
        _ => panic!("the lists are found"),
    }
}

#[test]
fn a_failed_search_says_where() {
    let cfg = account();
    let replies = vec![answer(401, "401 Unauthorized", "https://dav.test/", "no")];
    match discover_calendars(&cfg, &replies) {
        Step::Done(Err(e)) => {
            assert!(e.message.starts_with("step 1"), "{}", e.message);
            assert!(e.message.contains("401"), "{}", e.message);
        }
        _ => panic!("the search fails"),
    }
    let mut bad = account();
    bad.base_url = "no url".to_string();
    match discover_calendars(&bad, &vec![]) {
        Step::Done(Err(e)) => assert!(e.message.starts_with("parsing base_url"), "{}", e.message),
        _ => panic!("a bad address is refused"),
    }
}

#[test]
fn properties_and_lists_are_read_from_xml() {
    let xml = document(
        "<d:response><d:propstat><d:prop><d:current-user-principal><d:href>/p/</d:href>\
         </d:current-user-principal></d:prop><d:status>HTTP/1.1 200 OK</d:status></d:propstat></d:response>",
    );
    assert_eq!(parse_href_property(&xml, "current-user-principal").unwrap(), "/p/");
    assert!(parse_href_property(&xml, "calendar-home-set").is_err());
    assert!(parse_href_property("<x", "p").is_err());
    assert_eq!(parse_calendars(&document(""), CAL).unwrap().len(), 0);
    assert!(parse_calendars("<x", CAL).is_err());
}

#[test]
fn the_configured_list_is_picked() {
    let lists = vec![
        Calendar { display_name: "A".to_string(), href: "https://dav.test/a/".to_string() },
        Calendar { display_name: "B".to_string(), href: "https://dav.test/b/".to_string() },
    ];
    let mut cfg = account();
    cfg.calendar = Some("B".to_string());
    assert_eq!(pick_calendar(&cfg, &lists).unwrap(), 1);
    cfg.calendar_href = Some("https://dav.test/a/".to_string());
    assert_eq!(pick_calendar(&cfg, &lists).unwrap(), 0);
    cfg.calendar_href = Some("https://dav.test/x/".to_string());
    let e = pick_calendar(&cfg, &lists).unwrap_err();
    assert!(e.message.contains("[\"A\", \"B\"]"), "{}", e.message);
    assert!(pick_calendar(&account(), &lists).is_err());
}

#[test]
fn a_probe_shows_the_status_and_the_start_of_the_answer() {
    let cfg = account();
    match probe(&cfg, &vec![]) {
        Step::Send(r) => assert_eq!(r.url, "https://dav.test/remote.php/dav/calendars/alice/"),
        Step::Done(_) => panic!("a request is due"),
    }
    let long = format!("{}é", "x".repeat(499));
    match probe(&cfg, &vec![answer(207, "207 Multi-Status", "https://dav.test/", &long)]) {
        Step::Done(Ok(t)) => assert_eq!(t, format!("status=207\n\n{}", "x".repeat(499))),
        _ => panic!("the probe is answered"),
    }
}

#[test]
fn addresses_of_tasks_are_built() {
    assert_eq!(
        build_task_url(CAL, "https://dav.test/cal/a.ics").unwrap(),
        "https://dav.test/cal/a.ics"
    );
    assert_eq!(build_task_url(CAL, "/cal/b.ics").unwrap(), "https://dav.test/cal/b.ics");
    assert_eq!(
        build_create_url("https://dav.test/cal/?q=1#f", "u-1").unwrap(),
        "https://dav.test/cal/u-1.ics"
    );
    assert!(build_task_url("no url", "/cal/b.ics").is_err());
}

#[test]
fn answers_of_the_server_are_read() {
    let ok = dav_outcome(CAL, &multi(CAL, "")).unwrap();
    assert_eq!((ok.status, ok.final_url.as_str()), (207, CAL));
    assert!(dav_outcome(CAL, &answer(500, "500 Internal Server Error", CAL, "")).is_err());
    let lost = Reply::Failed(Failure {
        network: Some("timed out".to_string()),
        message: "sending request".to_string(),
    });
    let e = dav_outcome(CAL, &lost).unwrap_err();
    assert_eq!(e.network.as_deref(), Some("timed out"));
    let cut = Reply::Answered(Answer {
        status: 207,
        status_text: "207 Multi-Status".to_string(),
        etag: None,
        body: Err(Failure::new("cut off")),
        final_url: CAL.to_string(),
    });
    assert!(dav_outcome(CAL, &cut).is_err());
}

#[test]
fn a_default_config_has_no_account() {
    assert_eq!(Config::default().caldav.base_url, "");
}

#[test]
fn the_body_of_a_report_differs_in_its_token_alone() {
    let none = sync_collection_body(None);
    assert_eq!(sync_collection_body(Some("")), none);
    let body = sync_collection_body(Some("a&<b>"));
    assert_eq!(body.replacen("a&amp;&lt;b&gt;", "", 1), none);
}

#[test]
fn a_long_collection_path_gets_its_slash() {
    // Escaped characters count as they stand in the URL.
    let odd = "%C3%A9{|}~^".repeat(1000);
    let url = build_create_url(&format!("https://dav.test/{odd}"), "u").unwrap();
    assert!(url.ends_with("/u.ics"));
    assert!(url.starts_with("https://dav.test/%C3%A9%7B|%7D~"), "{}", &url[..60]);
}
