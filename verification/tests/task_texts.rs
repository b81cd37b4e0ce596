use retaskable::clock::{new_uid, seconds_from, Moment};
use retaskable::display::{
    filter_for_display, format_tasks_marked, humanize_secs, humanize_since, task_rows,
};
use retaskable::ical::{apply_vtodo_mutations, ensure_crlf, escape_ical_text, Mutation};
use retaskable::marks::Marks;
use retaskable::nesting::{has_short_lines, nests_within_limit, COLUMN_LIMIT, NESTING_LIMIT};
use retaskable::sync::xml_escape;
use retaskable::task::{
    edit_text_at, new_todo_body, parse_status, parse_vtodos, parse_vtodos_first, read_current_status,
    replace_summary, replace_summary_at, toggle_completion, toggle_completion_at, Task, TaskStatus,
};
use retaskable::text::{
    decimal_of, join, parse_i64, signed_decimal_of, split_inclusive, str_less, trim,
};

#[test]
fn replace_summary_preserves_unrelated_properties() {
    let input = "BEGIN:VCALENDAR\r\n\
        VERSION:2.0\r\n\
        PRODID:-//reTaskable test//EN\r\n\
        BEGIN:VTODO\r\n\
        UID:test-edit@retaskable\r\n\
        DTSTAMP:20260101T000000Z\r\n\
        SUMMARY:Old summary\r\n\
        STATUS:NEEDS-ACTION\r\n\
        X-CUSTOM-PROP:keep-me\r\n\
        BEGIN:VALARM\r\n\
        ACTION:DISPLAY\r\n\
        TRIGGER:-PT15M\r\n\
        DESCRIPTION:reminder\r\n\
        END:VALARM\r\n\
        END:VTODO\r\n\
        END:VCALENDAR\r\n";
    let out = replace_summary(input, "New summary");
    assert!(out.contains("SUMMARY:New summary\r\n"), "SUMMARY not replaced:\n{out}");
    assert!(!out.contains("SUMMARY:Old summary"), "Old SUMMARY still present:\n{out}");
    assert!(out.contains("STATUS:NEEDS-ACTION\r\n"), "STATUS dropped:\n{out}");
    assert!(out.contains("X-CUSTOM-PROP:keep-me\r\n"), "X-property dropped:\n{out}");
    assert!(out.contains("BEGIN:VALARM\r\n"), "VALARM begin dropped:\n{out}");
    assert!(out.contains("ACTION:DISPLAY\r\n"), "VALARM body dropped:\n{out}");
    assert!(out.contains("END:VALARM\r\n"), "VALARM end dropped:\n{out}");
    assert!(out.contains("LAST-MODIFIED:"), "LAST-MODIFIED not added:\n{out}");
    assert!(!out.contains("DTSTAMP:20260101T000000Z"), "DTSTAMP not bumped:\n{out}");
}

#[test]
fn escape_ical_text_handles_all_specials() {
    assert_eq!(escape_ical_text("plain"), "plain");
    assert_eq!(escape_ical_text("a, b"), "a\\, b");
    assert_eq!(escape_ical_text("a; b"), "a\\; b");
    assert_eq!(escape_ical_text("a\nb"), "a\\nb");
    assert_eq!(escape_ical_text("a\\b"), "a\\\\b");
    assert_eq!(escape_ical_text("a, b; c\nd\\e"), "a\\, b\\; c\\nd\\\\e");
}

#[test]
fn ensure_crlf_handles_lf_only_input() {
    let input = "BEGIN:VCALENDAR\nVERSION:2.0\nEND:VCALENDAR\n";
    let out = ensure_crlf(input);
    assert_eq!(out, "BEGIN:VCALENDAR\r\nVERSION:2.0\r\nEND:VCALENDAR\r\n");
}

#[test]
fn ensure_crlf_idempotent_on_crlf_input() {
    let input = "BEGIN:VCALENDAR\r\nVERSION:2.0\r\n";
    let out = ensure_crlf(input);
    assert_eq!(out, input);
}

#[test]
fn ensure_crlf_handles_mixed_input() {
    let input = "BEGIN:VCALENDAR\r\nVERSION:2.0\nPRODID:foo\r\n";
    let out = ensure_crlf(input);
    assert_eq!(out, "BEGIN:VCALENDAR\r\nVERSION:2.0\r\nPRODID:foo\r\n");
}

#[test]
fn ensure_crlf_handles_trailing_bare_cr() {
    let input = "BEGIN:VCALENDAR\r\nVERSION:2.0\r\nEND:VCALENDAR\r";
    let out = ensure_crlf(input);
    assert_eq!(out, "BEGIN:VCALENDAR\r\nVERSION:2.0\r\nEND:VCALENDAR\r\n");
}

#[test]
fn ensure_crlf_normalizes_classic_mac_cr_line_endings() {
    let input = "BEGIN:VCALENDAR\rVERSION:2.0\rEND:VCALENDAR\r";
    let out = ensure_crlf(input);
    assert_eq!(out, "BEGIN:VCALENDAR\r\nVERSION:2.0\r\nEND:VCALENDAR\r\n");
}

#[test]
fn parse_vtodos_first_works_against_trailing_bare_cr_body() {
    let body = "BEGIN:VCALENDAR\r\nVERSION:2.0\r\nPRODID:-//test//EN\r\n\
                BEGIN:VTODO\r\nUID:uid-x\r\nDTSTAMP:20260101T000000Z\r\n\
                SUMMARY:Hello\r\nSTATUS:NEEDS-ACTION\r\n\
                END:VTODO\r\nEND:VCALENDAR\r";
    let repaired = ensure_crlf(body);
    let task = parse_vtodos_first(&repaired).expect("parses");
    assert_eq!(task.uid, "uid-x");
    assert_eq!(task.summary, "Hello");
}

#[test]
fn icalendar_preserves_x_properties() {
    let input = "BEGIN:VCALENDAR\r\n\
        VERSION:2.0\r\n\
        PRODID:-//reTaskable test//EN\r\n\
        BEGIN:VTODO\r\n\
        UID:test-1@retaskable\r\n\
        DTSTAMP:20260516T120000Z\r\n\
        SUMMARY:Test task\r\n\
        STATUS:NEEDS-ACTION\r\n\
        X-CUSTOM-PROP:preserve-me\r\n\
        END:VTODO\r\n\
        END:VCALENDAR\r\n";
    let cal: icalendar::Calendar = input.parse().expect("parse should succeed");
    let round_trip = cal.to_string();
    assert!(
        round_trip.contains("X-CUSTOM-PROP"),
        "X-property was dropped by icalendar round-trip:\n{round_trip}"
    );
    let edited = replace_summary(input, "Edited");
    assert!(edited.contains("X-CUSTOM-PROP:preserve-me\r\n"));
}

fn task(uid: &str, summary: &str) -> Task {
    Task {
        uid: uid.to_string(),
        summary: summary.to_string(),
        status: TaskStatus::NeedsAction,
        due: None,
    }
}

#[test]
fn format_tasks_marked_empty_marks_renders_no_prefix() {
    let tasks = vec![task("uid-A", "Buy milk"), task("uid-B", "Water plants")];
    assert_eq!(
        format_tasks_marked(&tasks, &Marks::new()),
        "☐ Buy milk\n☐ Water plants"
    );
}

#[test]
fn format_tasks_marked_applies_queued_errored_and_blank_prefixes() {
    let tasks = vec![
        task("uid-A", "Buy milk"),
        task("uid-B", "Call plumber"),
        task("uid-C", "Water plants"),
    ];
    let mut marks = Marks::new();
    marks.insert("uid-A".to_string(), false);
    marks.insert("uid-B".to_string(), true);
    let out = format_tasks_marked(&tasks, &marks);
    assert_eq!(out, "* ☐ Buy milk\n! ☐ Call plumber\n  ☐ Water plants");
}

#[test]
fn format_tasks_marked_errored_value_renders_bang() {
    let tasks = vec![task("uid-A", "Buy milk")];
    let mut marks = Marks::new();
    marks.insert("uid-A".to_string(), true);
    assert_eq!(format_tasks_marked(&tasks, &marks), "! ☐ Buy milk");
}

const BODY: &str = "BEGIN:VCALENDAR\r\n\
    VERSION:2.0\r\n\
    BEGIN:VTODO\r\n\
    UID:u\r\n\
    DTSTAMP:20260101T000000Z\r\n\
    SUMMARY:Milk\\, eggs\r\n\
    STATUS:NEEDS-ACTION\r\n\
    DUE:20270101\r\n\
    END:VTODO\r\n\
    END:VCALENDAR\r\n";

#[test]
fn a_todo_is_read_with_its_fields() {
    let t = parse_vtodos_first(BODY).unwrap();
    assert_eq!(t.uid, "u");
    assert_eq!(t.status, TaskStatus::NeedsAction);
    assert_eq!(t.due.as_deref(), Some("20270101"));
    assert_eq!(parse_vtodos(BODY).unwrap().len(), 1);
    assert_eq!(read_current_status(BODY).unwrap(), TaskStatus::NeedsAction);
}

#[test]
fn a_text_without_a_todo_is_an_error() {
    let empty = "BEGIN:VCALENDAR\r\nVERSION:2.0\r\nEND:VCALENDAR\r\n";
    assert_eq!(parse_vtodos(empty).unwrap().len(), 0);
    assert!(parse_vtodos_first(empty).is_err());
    assert!(read_current_status(empty).is_err());
    assert!(toggle_completion(empty).is_err());
}

#[test]
fn a_status_reads_whatever_its_case() {
    assert_eq!(parse_status("COMPLETED"), TaskStatus::Completed);
    assert_eq!(parse_status("completed"), TaskStatus::Completed);
    assert_eq!(parse_status("IN-PROCESS"), TaskStatus::InProcess);
    assert_eq!(parse_status("CANCELLED"), TaskStatus::Cancelled);
    assert_eq!(parse_status("needs-action"), TaskStatus::NeedsAction);
    assert_eq!(parse_status("anything"), TaskStatus::Unknown);
}

#[test]
fn a_toggle_changes_only_the_completion_lines() {
    let (done, was, status) = toggle_completion_at(BODY, "20260601T120000Z").unwrap();
    assert_eq!(was, TaskStatus::NeedsAction);
    assert_eq!(status, TaskStatus::Completed);
    assert!(done.contains("STATUS:COMPLETED\r\n"));
    assert!(done.contains("COMPLETED:20260601T120000Z\r\n"));
    assert!(done.contains("PERCENT-COMPLETE:100\r\n"));
    assert!(done.contains("SUMMARY:Milk\\, eggs\r\n") && done.contains("DUE:20270101\r\n"));
    let (open, before, status) = toggle_completion_at(&done, "20260601T130000Z").unwrap();
    assert_eq!(before, TaskStatus::Completed);
    assert_eq!(status, TaskStatus::NeedsAction);
    assert!(open.contains("STATUS:NEEDS-ACTION\r\n") && !open.contains("COMPLETED:"));
}

fn mutation(key: &str, params: &str, value: Option<&str>) -> Mutation {
    Mutation {
        key: key.to_string(),
        params: params.to_string(),
        value: value.map(|v| v.to_string()),
    }
}

#[test]
fn a_mutation_replaces_adds_and_removes_lines() {
    let mutations = vec![
        mutation("STATUS", "", Some("COMPLETED")),
        mutation("DUE", "", None),
        mutation("LOCATION", "", Some("Home")),
    ];
    let out = apply_vtodo_mutations(BODY, &mutations);
    assert!(out.contains("STATUS:COMPLETED\r\n") && !out.contains("STATUS:NEEDS-ACTION"));
    assert!(!out.contains("DUE:"));
    assert!(out.contains("LOCATION:Home\r\nEND:VTODO\r\n"));
    assert!(out.ends_with("END:VTODO\r\nEND:VCALENDAR\r\n"));
    assert_eq!(apply_vtodo_mutations(BODY, &vec![]), BODY);
    let outside = "BEGIN:VCALENDAR\r\nSTATUS:X\r\nEND:VCALENDAR\r\n";
    assert_eq!(apply_vtodo_mutations(outside, &mutations), outside);
}

#[test]
fn a_new_todo_reads_back() {
    let body = new_todo_body("u-1", "Buy, milk; now", None, "20260601T120000Z");
    let t = parse_vtodos_first(&body).unwrap();
    assert_eq!(t.uid, "u-1");
    assert_eq!(t.status, TaskStatus::NeedsAction);
    assert!(body.contains("DTSTAMP:20260601T120000Z\r\n"));
    assert!(body.contains("SUMMARY:Buy\\, milk\\; now\r\n"));
    let renamed = replace_summary_at(&body, "Other", "20260601T130000Z");
    assert_eq!(parse_vtodos_first(&renamed).unwrap().summary, "Other");
}

#[test]
fn the_clock_and_the_identifiers_have_their_forms() {
    let m = Moment::now();
    assert_eq!(m.stamp.len(), 16);
    assert!(m.stamp.ends_with('Z') && m.stamp.as_bytes()[8] == b'T');
    assert!(m.secs > 1_600_000_000);
    let uid = new_uid();
    assert_eq!(uid.len(), 36);
    for (i, c) in uid.char_indices() {
        assert_eq!(c == '-', [8, 13, 18, 23].contains(&i), "{uid}");
        assert!(c == '-' || c.is_ascii_hexdigit(), "{uid}");
    }
    assert_eq!(&uid[14..15], "4");
    assert!("89ab".contains(&uid[19..20]), "{uid}");
    assert_ne!(uid, new_uid());
}

#[test]
fn dated_tasks_come_first_and_finished_ones_last() {
    let mut late = task("a", "Late");
    late.due = Some("20270301".to_string());
    let mut soon = task("b", "Soon");
    soon.due = Some("20270101".to_string());
    let mut done = task("c", "Done");
    done.status = TaskStatus::Completed;
    let plain = task("d", "Plain");
    let out = format_tasks_marked(&[done, plain, late, soon], &Marks::new());
    let order: Vec<usize> = ["Soon", "Late", "Plain", "Done"]
        .iter()
        .map(|s| out.find(s).unwrap())
        .collect();
    assert!(order[0] < order[1] && order[1] < order[2] && order[2] < order[3], "{out}");
}

#[test]
fn finished_tasks_are_hidden_unless_asked_for() {
    let mut done = task("c", "Done");
    done.status = TaskStatus::Completed;
    let mut dropped = task("x", "Dropped");
    dropped.status = TaskStatus::Cancelled;
    let all = vec![task("a", "Open"), done, dropped];
    assert_eq!(filter_for_display(&all, false).len(), 1);
    assert_eq!(filter_for_display(&all, true).len(), 3);
    let mut marks = Marks::new();
    marks.insert("a".to_string(), false);
    marks.insert("c".to_string(), true);
    let rows = task_rows(&all, &marks);
    let a = rows.iter().find(|r| r.uid == "a").unwrap();
    let c = rows.iter().find(|r| r.uid == "c").unwrap();
    let x = rows.iter().find(|r| r.uid == "x").unwrap();
    assert_eq!((a.mark.as_str(), a.completed), ("*", false));
    assert_eq!((c.mark.as_str(), c.completed), ("!", true));
    assert_eq!(x.mark, "");
}

#[test]
fn spans_of_time_are_named() {
    assert_eq!(humanize_secs(59), "<1 minute");
    assert_eq!(humanize_secs(60), "1 minute");
    assert_eq!(humanize_secs(3599), "59 minutes");
    assert_eq!(humanize_secs(3600), "1 hour");
    assert_eq!(humanize_secs(7200), "2 hours");
    assert_eq!(humanize_secs(86400), "1 day");
    assert_eq!(humanize_secs(259200), "3 days");
    assert_eq!(humanize_since(50, 100), "<1 minute");
    assert_eq!(humanize_since(160, 100), "1 minute");
}

#[test]
fn marks_keep_the_worse_news() {
    let mut marks = Marks::new();
    assert!(marks.is_empty());
    marks.insert("a".to_string(), false);
    assert_eq!(marks.get("a"), Some(false));
    assert_eq!(marks.get("b"), None);
    assert_eq!(marks.len(), 1);
}

#[test]
fn markup_is_escaped() {
    assert_eq!(xml_escape("a<b>&c"), "a&lt;b&gt;&amp;c");
    assert_eq!(xml_escape("plain"), "plain");
}

#[test]
fn numbers_are_written_and_read() {
    assert_eq!(decimal_of(0), "0");
    assert_eq!(decimal_of(1_234_567), "1234567");
    assert_eq!(signed_decimal_of(-42), "-42");
    assert_eq!(signed_decimal_of(i64::MIN), i64::MIN.to_string());
    assert_eq!(parse_i64("42"), Some(42));
    assert_eq!(parse_i64("-7"), Some(-7));
    assert_eq!(parse_i64("+7"), Some(7));
    assert_eq!(parse_i64("9223372036854775807"), Some(i64::MAX));
    assert_eq!(parse_i64("9223372036854775808"), None);
    assert_eq!(parse_i64(""), None);
    assert_eq!(parse_i64("-"), None);
    assert_eq!(parse_i64("4x"), None);
}

#[test]
fn texts_are_cut_and_joined() {
    assert_eq!(trim(" \t a b \u{2003}\n"), "a b");
    assert_eq!(split_inclusive("a\nb"), vec!["a\n", "b"]);
    assert_eq!(split_inclusive("").len(), 0);
    assert_eq!(join(&vec!["a".to_string(), "b".to_string()], ", "), "a, b");
    assert!(str_less("a", "b") && str_less("a", "ab") && !str_less("b", "a"));
    assert!(!str_less("a", "a"));
}

const STAMP: &str = "20260601T120000Z";

#[test]
fn a_folded_summary_is_replaced_as_a_whole() {
    let text = "BEGIN:VCALENDAR\r\nBEGIN:VTODO\r\nUID:u\r\nSUMMARY:Old long\r\n  tail\r\n\
        END:VTODO\r\nEND:VCALENDAR\r\n";
    let out = replace_summary(text, "New");
    assert_eq!(parse_vtodos_first(&out).unwrap().summary, "New");
    assert_eq!(
        replace_summary_at(text, "New", STAMP),
        "BEGIN:VCALENDAR\r\nBEGIN:VTODO\r\nUID:u\r\nSUMMARY:New\r\n\
         DTSTAMP:20260601T120000Z\r\nLAST-MODIFIED:20260601T120000Z\r\n\
         END:VTODO\r\nEND:VCALENDAR\r\n"
    );
}

#[test]
fn the_folded_lines_of_other_properties_stay() {
    let text = "BEGIN:VTODO\r\nDESCRIPTION:one\r\n two\r\n\tthree\r\nDUE;VALUE=DATE:2026\r\n 0101\r\n\
        X-A:b\r\n c\r\nEND:VTODO\r\n";
    let out = apply_vtodo_mutations(text, &vec![mutation("DUE", "", None)]);
    assert_eq!(
        out,
        "BEGIN:VTODO\r\nDESCRIPTION:one\r\n two\r\n\tthree\r\nX-A:b\r\n c\r\nEND:VTODO\r\n"
    );
}

#[test]
fn a_second_pass_changes_nothing() {
    let mutations = vec![
        mutation("SUMMARY", "", Some("New")),
        mutation("DUE", ";VALUE=DATE", Some("20270101")),
        mutation("STATUS", "", None),
    ];
    let text = "X:1\nBEGIN:VTODO\nSUMMARY:a\n b\nSUMMARY:c\nSTATUS:X\nY:2\nEND:VTODO\n\
        BEGIN:VTODO\r\nDUE:20260101T000000\r\nEND:VTODO\r\nSTATUS:outside";
    let once = apply_vtodo_mutations(text, &mutations);
    assert_eq!(
        once,
        "X:1\nBEGIN:VTODO\nSUMMARY:New\nSUMMARY:New\nY:2\nDUE;VALUE=DATE:20270101\r\nEND:VTODO\n\
         BEGIN:VTODO\r\nDUE;VALUE=DATE:20270101\r\nSUMMARY:New\r\nEND:VTODO\r\nSTATUS:outside"
    );
    assert_eq!(apply_vtodo_mutations(&once, &mutations), once);
}

#[test]
fn an_edit_sets_clears_or_keeps_the_due_date() {
    let dated = edit_text_at(BODY, "S", Some("20280202"), STAMP);
    assert!(dated.contains("\r\nDUE;VALUE=DATE:20280202\r\n"), "{dated}");
    assert!(!dated.contains("20270101"));
    assert_eq!(parse_vtodos_first(&dated).unwrap().due.as_deref(), Some("20280202"));
    let timed = edit_text_at(&dated, "S", Some("20280202T101500"), STAMP);
    assert!(timed.contains("\r\nDUE:20280202T101500\r\n"), "{timed}");
    assert_eq!(parse_vtodos_first(&timed).unwrap().due.as_deref(), Some("20280202T101500"));
    let cleared = edit_text_at(&timed, "S", Some(""), STAMP);
    assert!(!cleared.contains("DUE"));
    assert_eq!(parse_vtodos_first(&cleared).unwrap().due, None);
    let kept = edit_text_at(BODY, "S", None, STAMP);
    assert!(kept.contains("\r\nDUE:20270101\r\n"));
    assert_eq!(kept, replace_summary_at(BODY, "S", STAMP));
    assert_eq!(edit_text_at(&ensure_crlf(BODY), "S", None, STAMP), kept);
}

#[test]
fn a_new_todo_holds_its_due_date() {
    let dated = new_todo_body("u-1", "S", Some("20270101"), STAMP);
    assert!(dated.contains("SUMMARY:S\r\nDUE;VALUE=DATE:20270101\r\nSTATUS:"), "{dated}");
    assert_eq!(parse_vtodos_first(&dated).unwrap().due.as_deref(), Some("20270101"));
    assert_eq!(new_todo_body("u-1", "S", Some(""), STAMP), new_todo_body("u-1", "S", None, STAMP));
}

fn nested(n: usize) -> String {
    let mut text = "BEGIN:VCALENDAR\r\n".to_string();
    for _ in 1..n {
        text.push_str("BEGIN:VTODO\r\n");
    }
    for _ in 1..n {
        text.push_str("END:VTODO\r\n");
    }
    text.push_str("END:VCALENDAR\r\n");
    text
}

#[test]
fn components_that_nest_too_deeply_are_not_read() {
    assert!(nests_within_limit(&nested(NESTING_LIMIT)));
    assert_eq!(parse_vtodos(&nested(NESTING_LIMIT)).unwrap().len(), 1);
    let deep = nested(NESTING_LIMIT + 1);
    assert!(!nests_within_limit(&deep));
    let e = parse_vtodos(&deep).unwrap_err();
    assert_eq!(e.message, "icalendar parse error: components nest too deeply");
    assert!(read_current_status(&nested(100_000)).is_err());
    // A fold does not hide a component.
    let hidden = deep.replace("BEGIN:VTODO", "BEG\r\n IN:VTODO");
    assert!(!nests_within_limit(&hidden));
    assert!(!nests_within_limit(&deep.replace("BEGIN:VTODO", "begin:VTODO")));
}

#[test]
fn a_second_toggle_finds_the_status_of_the_first() {
    let zone = "BEGIN:VTIMEZONE\r\nTZID:Europe/Berlin\r\nBEGIN:STANDARD\r\nSTATUS:X\r\n\
        DTSTART:19700101T000000\r\nEND:STANDARD\r\nEND:VTIMEZONE\r\n";
    for (before, inside, after) in [
        ("", "UID:a\r\n", ""),
        ("VERSION:2.0\r\n", "UID:a\r\nSTATUS:NEEDS-ACTION\r\nEND-X:1\r\n", ""),
        (zone, "UID:a\r\nSTATUS;X-A=b:completed\r\nDUE;VALUE=DATE:20270101\r\n", ""),
        ("", "STATUS:IN-PROCESS\r\nSTATUS:CANCELLED\r\nPERCENT-COMPLETE:5\r\n", zone),
        ("", "DESCRIPTION:say \"STATUS:COMPLETED\"\r\n", "X-LAST:1\r\n"),
    ] {
        let mut text = format!(
            "BEGIN:VCALENDAR\r\n{before}BEGIN:VTODO\r\n{inside}END:VTODO\r\n{after}END:VCALENDAR\r\n"
        );
        let (first, _, mut last) = toggle_completion_at(&text, "20260601T120000Z").unwrap();
        text = first;
        for _ in 0..3 {
            let (next, was, new) = toggle_completion_at(&text, "20260601T130000Z").unwrap();
            assert_eq!(was, last, "{text}");
            assert_ne!(new, was);
            text = next;
            last = new;
        }
    }
}

#[test]
fn a_note_may_speak_of_components() {
    let words = "begin:vtodo BEGIN:X ".repeat(3 * NESTING_LIMIT);
    for name in ["DESCRIPTION", "X-NOTE;LANGUAGE=en", "X-NOTE;ALTREP=\"cid:a\""] {
        let text = format!(
            "BEGIN:VCALENDAR\r\nBEGIN:VTODO\r\nUID:a\r\nSUMMARY:S\r\n{name}:{words}\r\n\
             END:VTODO\r\nEND:VCALENDAR\r\n"
        );
        assert!(nests_within_limit(&text), "{name}");
        let tasks = parse_vtodos(&text).unwrap();
        assert_eq!(tasks.len(), 1);
        assert_eq!(tasks[0].summary, "S");
    }
    // A line that is no property may open one component after the other.
    let run = format!("BEGIN:VCALENDAR\r\n{}", "BEGIN:A:".repeat(NESTING_LIMIT));
    assert!(!nests_within_limit(&run));
}

#[test]
fn components_one_after_the_other_do_not_nest() {
    let mut text = "BEGIN:VCALENDAR\n".to_string();
    for i in 0..500 {
        text.push_str(&format!("BEGIN:VTODO\nUID:{i}\nDTSTART;TZID=Europe/Berlin:20260101\nEND:VTODO\n"));
    }
    text.push_str("END:VCALENDAR\n");
    assert!(nests_within_limit(&text));
    assert_eq!(parse_vtodos(&text).unwrap().len(), 500);
    let quoted = text.replacen("UID:0\n", "UID:0\nATTENDEE;CN=\"A: b\";X=\"c\":mailto:a\n", 1);
    assert!(nests_within_limit(&quoted));
    assert_eq!(parse_vtodos(&quoted).unwrap().len(), 500);
    let marked = text.replacen("UID:0\n", "UID:0\nX-HTML;A=b:<a href=\"c\">d</a>\n", 1);
    assert!(nests_within_limit(&marked));
    // Behind a quote that stays open, and behind a parameter without a value, an END may
    // be part of the parameter.
    for odd in ["ATTENDEE;CN=\"A:mailto:a\n", "ATTENDEE;CN=A\n", "ATTENDEE;CN=\"A: b\";X=c\n"] {
        assert!(!nests_within_limit(&text.replacen("UID:0\n", &format!("UID:0\n{odd}"), 1)));
    }
    // So may one behind a line that ends otherwise than the rest.
    assert!(!nests_within_limit(&text.replacen("UID:0\n", "UID:0\r\n", 1)));
}

#[test]
fn a_clock_before_the_epoch_counts_as_the_epoch() {
    assert_eq!(seconds_from(-5), 0);
    assert_eq!(seconds_from(0), 0);
    assert_eq!(seconds_from(1_700_000_000), 1_700_000_000);
}

#[test]
fn an_error_far_into_a_line_is_an_error() {
    let text = |n: usize| format!("BEGIN:A\n{} x\nEND:A\n", "K".repeat(n));
    assert!(!has_short_lines(&text(65_600)));
    let e = parse_vtodos(&text(65_600)).unwrap_err();
    assert_eq!(e.message, "icalendar parse error: malformed text with a line too long to show");
    assert!(read_current_status(&text(65_600)).is_err());
    // A fold does not make a line shorter.
    let folded = format!("BEGIN:A\n{} x\nEND:A\n", "KK\n ".repeat(40_000));
    assert!(!has_short_lines(&folded));
    assert!(parse_vtodos(&folded).is_err());
    // The longest line that an error is shown for.
    let longest = text(COLUMN_LIMIT - 3);
    assert!(has_short_lines(&longest));
    assert!(!has_short_lines(&text(COLUMN_LIMIT - 2)));
    let e = parse_vtodos(&longest).unwrap_err();
    assert!(e.message.contains("error: "), "{}", &e.message[..80]);
    // Two bytes to a character.
    assert!(!has_short_lines(&"\u{e9}".repeat(40_000)));
}

#[test]
fn a_long_line_is_read() {
    let text = format!(
        "BEGIN:VCALENDAR\r\nBEGIN:VTODO\r\nUID:u\r\nATTACH:{}\r\nSUMMARY:S\r\nEND:VTODO\r\nEND:VCALENDAR\r\n",
        "A".repeat(200_000)
    );
    assert!(!has_short_lines(&text));
    assert_eq!(parse_vtodos_first(&text).unwrap().summary, "S");
    assert_eq!(read_current_status(&text).unwrap(), TaskStatus::NeedsAction);
}

#[test]
fn lines_stay_where_two_mutations_have_the_same_key() {
    let text = "A:1\r\nBEGIN:VTODO\r\nX:1\r\n y\r\nSUMMARY:s\r\nZ:2\r\nEND:VTODO\r\nB:2\r\n";
    let mutations = vec![
        mutation("X", "", Some("a")),
        mutation("X", "", None),
        mutation("Y", "", Some("b")),
        mutation("Y", "", Some("c")),
    ];
    assert_eq!(
        apply_vtodo_mutations(text, &mutations),
        "A:1\r\nBEGIN:VTODO\r\nX:a\r\nSUMMARY:s\r\nZ:2\r\nY:b\r\nY:c\r\nEND:VTODO\r\nB:2\r\n"
    );
}

#[test]
fn marks_stand_in_front_of_the_unmarked_lines() {
    let tasks = [task("a", "A"), task("b", "B"), task("c", "C")];
    let mut marks = Marks::new();
    marks.insert("a".to_string(), true);
    marks.insert("b".to_string(), false);
    let plain = format_tasks_marked(&tasks, &Marks::new());
    let marked = format_tasks_marked(&tasks, &marks);
    let expected: Vec<String> = plain
        .lines()
        .zip(["! ", "* ", "  "])
        .map(|(line, mark)| format!("{mark}{line}"))
        .collect();
    assert_eq!(marked, expected.join("\n"));
    assert_eq!(format_tasks_marked(&[], &marks), "(no tasks)");
}
