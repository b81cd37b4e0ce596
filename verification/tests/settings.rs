use retaskable::account::{
    config_for_form, discover_with_inner, FormAnswer, format_discover_error, normalize_base_url, normalize_submitted_password,
    parse_account_form, save_config_inner, target_changed, validate_account_identity,
};
use retaskable::config::{
    active_list, has_remote, merge_password, CaldavConfig, Config, LOCAL_LIST_ID,
};
use retaskable::diagnostics::{log_line, log_line_at, needs_rotation, read_tail, scrub, tail, MAX_BYTES};
use retaskable::failure::Failure;
use retaskable::messages::{error_text, reply, response_code, route, Ask, MSG_GET_DIAGNOSTICS, MSG_PING};
use retaskable::schema::{needs_migration, read_schema_version, SCHEMA_VERSION};

#[test]
fn merge_password_blank_keeps_existing() {
    assert_eq!(merge_password("", Some("old-secret")), "old-secret");
    assert_eq!(merge_password("", None), "");
    assert_eq!(merge_password("new-secret", Some("old-secret")), "new-secret");
}

#[test]
fn missing_config_defaults_to_local_capable_shape() {
    let parsed = Config::default();
    assert_eq!(active_list(&parsed), Some(LOCAL_LIST_ID));
    assert_eq!(parsed.caldav.provider, "generic");
    assert!(!has_remote(&parsed));
}

#[test]
fn newline_scrubbing_is_stable() {
    assert_eq!("a\r\nb".replace(['\r', '\n'], " "), "a  b");
    assert_eq!(scrub("a\r\nb"), "a  b");
}

fn cfg(base_url: &str, calendar: Option<&str>) -> Config {
    Config {
        active_list: None,
        caldav: CaldavConfig {
            provider: "generic".to_string(),
            base_url: base_url.to_string(),
            username: "u".to_string(),
            app_password: "p".to_string(),
            calendar_href: calendar.map(|s| s.to_string()),
            calendar: calendar.map(|s| s.to_string()),
        },
    }
}

#[test]
fn target_changed_true_on_first_run_url_or_calendar() {
    let old = cfg("https://a", Some("Personal"));
    assert!(target_changed(None, "https://a", &Some("Personal".to_string())));
    assert!(!target_changed(Some(&old), "https://a", &Some("Personal".to_string())));
    assert!(target_changed(Some(&old), "https://b", &Some("Personal".to_string())));
    assert!(target_changed(Some(&old), "https://a", &Some("Work".to_string())));
}

#[test]
fn target_changed_false_when_only_credentials_differ() {
    let old = cfg("https://a", Some("Personal"));
    assert!(!target_changed(Some(&old), "https://a", &Some("Personal".to_string())));
}

#[test]
fn normalize_base_url_adds_https_and_trims_slashes() {
    assert_eq!(
        normalize_base_url(" nextcloud.example.com/ ").unwrap(),
        "https://nextcloud.example.com"
    );
    assert_eq!(
        normalize_base_url("https://nextcloud.example.com/").unwrap(),
        "https://nextcloud.example.com"
    );
}

#[test]
fn normalize_base_url_strips_bare_remote_dav_path() {
    assert_eq!(
        normalize_base_url("https://nextcloud.example.com/remote.php/dav").unwrap(),
        "https://nextcloud.example.com"
    );
    assert_eq!(
        normalize_base_url("https://example.com/cloud/remote.php/dav/").unwrap(),
        "https://example.com/cloud"
    );
}

#[test]
fn normalize_base_url_rejects_collection_urls() {
    let err = normalize_base_url(
        "https://nextcloud.example.com/remote.php/dav/calendars/alice/tasks",
    )
    .unwrap_err()
    .message;
    assert!(err.contains("bare Nextcloud server URL"), "got {err}");
}

#[test]
fn icloud_requires_email_identity_and_scrubs_paste_whitespace() {
    assert!(validate_account_identity("icloud", "old-nextcloud-user").is_err());
    assert!(validate_account_identity("icloud", "person@example.com").is_ok());
    assert_eq!(
        normalize_submitted_password("icloud", "abcd-efgh \n ijkl-mnop"),
        "abcd-efghijkl-mnop"
    );
    assert_eq!(
        normalize_submitted_password("generic", " keep spaces "),
        " keep spaces "
    );
}

#[test]
fn format_discover_error_explains_dns_failures() {
    let err = Failure::new(
        "step 1: PROPFIND .well-known/caldav: sending request: No address associated with hostname",
    );
    let msg = format_discover_error(&err);
    assert!(msg.contains("Could not resolve the server hostname"), "got {msg}");
    assert!(msg.contains("step 1: PROPFIND"), "got {msg}");
}

#[test]
fn discover_errors_are_told_apart() {
    let say = |m: &str| format_discover_error(&Failure::new(m));
    assert!(say("parsing base_url: empty host").starts_with("Server URL is not valid."));
    assert!(say("answer 401 Unauthorized").starts_with("The CalDAV server rejected"));
    assert!(say("operation timed out").starts_with("DAV-DISCOVERY-TIMEOUT"));
    assert_eq!(say("something else"), "something else");
}

#[test]
fn a_form_becomes_settings() {
    let form = parse_account_form(
        r#"{"base_url":"cloud.example.com","username":" alice ","app_password":"pw","calendar_href":"https://cloud.example.com/t/","calendar":"  "}"#,
    )
    .unwrap();
    assert_eq!(form.base_url, "https://cloud.example.com");
    assert_eq!(form.username, "alice");
    assert_eq!(form.provider, "generic");
    assert_eq!(form.calendar, None);
    let (saved, changed) = save_config_inner(&form, None).unwrap();
    assert!(changed);
    assert_eq!(saved.active_list.as_deref(), Some("https://cloud.example.com/t/"));
    assert_eq!(saved.caldav.app_password, "pw");
    assert!(has_remote(&saved));

    let again = parse_account_form(
        r#"{"base_url":"cloud.example.com","username":"alice","calendar_href":"https://cloud.example.com/t/"}"#,
    )
    .unwrap();
    let (kept, changed) = save_config_inner(&again, Some(&saved)).unwrap();
    assert!(!changed);
    assert_eq!(kept.caldav.app_password, "pw", "a blank password keeps the stored one");

    let other = parse_account_form(r#"{"base_url":"cloud.example.com","username":"bob"}"#).unwrap();
    assert!(save_config_inner(&other, Some(&saved)).is_err(), "another account needs its own");
    assert!(discover_with_inner(&other, Some(&saved)).is_err());
    let trial = discover_with_inner(&again, Some(&saved)).unwrap();
    assert_eq!(trial.app_password, "pw");
    assert_eq!(trial.calendar_href, None);
}

#[test]
fn a_bad_form_is_refused() {
    assert!(parse_account_form("{").is_err());
    assert!(parse_account_form("{}").is_err());
    assert!(parse_account_form(r#"{"base_url":"x.org"}"#).is_err());
    assert!(parse_account_form(r#"{"provider":"icloud","username":"no-mail"}"#).is_err());
    let icloud =
        parse_account_form(r#"{"provider":" iCloud ","username":"a@b.c","app_password":"x y"}"#)
            .unwrap();
    assert_eq!(icloud.base_url, "https://caldav.icloud.com");
    assert_eq!(icloud.new_password, "xy");
}

#[test]
fn an_older_config_names_its_collection() {
    let mut old = cfg("https://a", Some("https://a/t/"));
    assert_eq!(active_list(&old), Some("https://a/t/"));
    old.active_list = Some("https://a/u/".to_string());
    assert_eq!(active_list(&old), Some("https://a/u/"));
}

#[test]
fn messages_are_routed_and_answered() {
    assert_eq!(route(MSG_PING), Some(Ask::Ping));
    assert_eq!(route(MSG_GET_DIAGNOSTICS), Some(Ask::GetDiagnostics));
    assert_eq!(route(0), None);
    assert_eq!(route(26), None);
    let mut n: u32 = 1;
    while n <= 25 {
        assert_eq!(response_code(route(n).unwrap()), n + 100);
        n += 1;
    }
    assert_eq!(error_text(&Failure::new("boom")), "error: boom");
}

#[test]
fn the_log_is_one_line_per_event_and_its_end_is_shown() {
    let line = log_line_at("2026-06-01T12:00:00Z", "a\nb");
    assert!(line.starts_with("2026-06-01T12:00:00Z") && line.ends_with("a b\n"), "{line}");
    assert!(log_line("x").ends_with("x\n"));
    let now = log_line("x\ny");
    assert_eq!(now.len(), "2026-06-01T12:00:00Z x y\n".len(), "{now}");
    for (i, (a, b)) in now.chars().zip("2026-06-01T12:00:00Z x y\n".chars()).enumerate() {
        assert!(a == b || (a.is_ascii_digit() && b.is_ascii_digit()), "{i}: {now}");
    }
    assert_eq!(tail("a\nb\nc\n", 2), "b\nc");
    assert_eq!(tail("a", 5), "a");
    assert_eq!(read_tail(Some("a\nb"), 1), "b");
    assert_eq!(read_tail(None, 1), "No diagnostics recorded yet.");
    assert!(needs_rotation(MAX_BYTES));
    assert!(!needs_rotation(MAX_BYTES - 1));
}

#[test]
fn an_old_layout_is_migrated_once() {
    assert!(needs_migration(read_schema_version(false, None)));
    assert!(needs_migration(read_schema_version(true, None)));
    assert!(needs_migration(read_schema_version(true, Some("1"))));
    assert!(needs_migration(read_schema_version(true, Some("junk"))));
    assert!(!needs_migration(read_schema_version(true, Some("2"))));
    assert_eq!(SCHEMA_VERSION, 2);
}

#[test]
fn a_failure_keeps_its_cause() {
    let f = Failure::new("inner").context("outer");
    assert_eq!(f.message, "outer: inner");
    assert_eq!(f.network, None);
    assert_eq!(Failure::from_message("m".to_string()).message, "m");
}

fn stored(password: &str) -> Config {
    Config {
        active_list: None,
        caldav: CaldavConfig {
            provider: "nextcloud".to_string(),
            base_url: "https://a".to_string(),
            username: "alice".to_string(),
            app_password: password.to_string(),
            calendar_href: Some("https://a/t/".to_string()),
            calendar: None,
        },
    }
}

#[test]
fn the_form_never_sees_the_password() {
    assert!(matches!(config_for_form(None), FormAnswer::Blank));
    let shown = format!("{:?}", config_for_form(Some(&stored("SECRET-ONE"))));
    assert!(!shown.contains("SECRET-ONE"));
    assert_eq!(shown, format!("{:?}", config_for_form(Some(&stored("other")))));
    match config_for_form(Some(&stored(""))) {
        FormAnswer::Stored {
            provider,
            base_url,
            username,
            calendar,
            calendar_href,
            active_list,
            has_password,
        } => {
            assert_eq!((provider.as_str(), base_url.as_str()), ("nextcloud", "https://a"));
            assert_eq!((username.as_str(), calendar), ("alice", None));
            assert_eq!(calendar_href.as_deref(), Some("https://a/t/"));
            assert_eq!(active_list.as_deref(), Some("https://a/t/"));
            assert!(!has_password);
        }
        FormAnswer::Blank => panic!("something is stored"),
    }
}

#[test]
fn each_message_has_one_answer() {
    for n in 0..200u32 {
        match route(n) {
            Some(ask) => {
                assert!((1..=25).contains(&n));
                assert_eq!(reply(ask, Ok("done".to_string())), (n + 100, "done".to_string()));
                let failed = reply(ask, Err(Failure::new("no")));
                assert_eq!(failed, (n + 100, "error: no".to_string()));
            }
            None => assert!(!(1..=25).contains(&n)),
        }
    }
}

#[test]
fn a_normal_address_stays_as_it_is() {
    for input in [
        " cloud.example.com/ ",
        "https://cloud.example.com/remote.php/dav/",
        "http://cloud.example.com/nextcloud/?a=b#c",
        "https://cloud.example.com:8443/sub/path//",
    ] {
        let once = normalize_base_url(input).unwrap();
        assert!(!once.ends_with('/') && !once.contains('?') && !once.contains('#'), "{once}");
        assert_eq!(normalize_base_url(&once).unwrap(), once);
    }
    for input in ["", "  ", "/", "ftp://a", "https://a/remote.php/dav/calendars/x"] {
        assert!(normalize_base_url(input).is_err(), "{input}");
    }
}
