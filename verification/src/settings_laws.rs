//! What is read out of the messages of the screen, and what becomes of the settings. A
//! message is spoken of by the members of its top level.
use vstd::prelude::*;
use crate::account::{
    discover_message, filled, form_of, form_view, normalized, settled, trial, AccountFormV,
    FormAnswerV,
};
use crate::config::{account_set_up, CaldavConfigV, ConfigV};
use crate::failure::FailureV;
use crate::handlers::{active_href, create_in_message, edit_of};
use crate::json::{json_top, member_from, JsonTopV};
use crate::multistatus::CalendarV;
use crate::reconcile::{picked, with_href, with_name};
use crate::screen::transfer_of;
use crate::seqs::lemma_find;
use crate::store::StoreV;
use crate::table_laws::law_lists_are_looked_up;
use crate::text::{ascii_lower, has_sub, is_space, stands_at, trimmed};
use crate::wire_laws::{holds, lemma_holds};

verus! {

// --- Members of a message ---

/// The first member `key` is the string `value`.
pub open spec fn tells(top: JsonTopV, key: Seq<char>, value: Seq<char>) -> bool {
    exists|i: int|
        {
            &&& 0 <= i < top.members.len()
            &&& #[trigger] top.members[i] == (key, Some(value))
            &&& forall|j: int| 0 <= j < i ==> (#[trigger] top.members[j]).0 != key
        }
}

/// There is no member `key`.
pub open spec fn lacks(top: JsonTopV, key: Seq<char>) -> bool {
    forall|i: int| 0 <= i < top.members.len() ==> (#[trigger] top.members[i]).0 != key
}

/// There is no member `key`, or the first one is no string.
pub open spec fn is_silent(top: JsonTopV, key: Seq<char>) -> bool {
    forall|v: Seq<char>| !(#[trigger] tells(top, key, v))
}

/// `value` is the string `key`, or `default` where there is none.
pub open spec fn tells_or(
    top: JsonTopV,
    key: Seq<char>,
    default: Seq<char>,
    value: Seq<char>,
) -> bool {
    tells(top, key, value) || (is_silent(top, key) && value == default)
}

proof fn lemma_member(top: JsonTopV, key: Seq<char>, i: nat)
    requires
        i <= top.members.len(),
        forall|j: int| 0 <= j < i ==> (#[trigger] top.members[j]).0 != key,
    ensures
        (member_from(top.members, key, i) is None) == lacks(top, key),
        forall|v: Seq<char>|
            (member_from(top.members, key, i) == Some(Some(v))) == #[trigger] tells(top, key, v),
    decreases top.members.len() - i,
{
    if i >= top.members.len() {
        assert forall|v: Seq<char>| !(#[trigger] tells(top, key, v)) by {}
    } else if top.members[i as int].0 == key {
        assert forall|v: Seq<char>|
            (member_from(top.members, key, i) == Some(Some(v))) == #[trigger] tells(
            top,
            key,
            v,
        ) by {
            if top.members[i as int].1 == Some(v) {
                assert(top.members[i as int] == (key, Some(v)));
            }
            if tells(top, key, v) {
                let k = choose|k: int|
                    {
                        &&& 0 <= k < top.members.len()
                        &&& #[trigger] top.members[k] == (key, Some(v))
                        &&& forall|j: int| 0 <= j < k ==> (#[trigger] top.members[j]).0 != key
                    };
                assert(k == i) by {
                    if k > i {
                        assert(top.members[i as int].0 != key);
                    }
                }
            }
        }
    } else {
        lemma_member(top, key, i + 1);
    }
}

pub proof fn lemma_string(top: JsonTopV, key: Seq<char>, default: Seq<char>)
    ensures
        tells_or(top, key, default, top.string_or(key, default)),
        forall|v: Seq<char>| #[trigger]
            tells(top, key, v) ==> top.string(key) == Some(v) && top.member(key) == Some(Some(v)),
        top.string(key) matches Some(v) ==> tells(top, key, v),
        top.string(key) is None == is_silent(top, key),
        (top.member(key) is None) == lacks(top, key),
{
    lemma_member(top, key, 0);
    if top.string(key) is Some {
        assert(tells(top, key, top.string(key)->Some_0));
    } else {
        assert forall|v: Seq<char>| !(#[trigger] tells(top, key, v)) by {}
    }
}

/// An edit has the trimmed identifier and summary of the message, neither of them blank. Its
/// due date is the trimmed one of the message: none where the message has no such member,
/// and an empty one where the member is no string.
pub proof fn law_edit_is_read(top: JsonTopV)
    ensures
        match edit_of(top) {
            Ok(e) => {
                &&& e.uid.len() > 0 && e.summary.len() > 0
                &&& exists|u: Seq<char>| #[trigger] tells(top, "uid"@, u) && e.uid == trimmed(u)
                &&& exists|m: Seq<char>| #[trigger]
                    tells(top, "summary"@, m) && e.summary == trimmed(m)
                &&& e.due is None == lacks(top, "due"@)
                &&& forall|d: Seq<char>| #[trigger]
                    tells(top, "due"@, d) ==> e.due == Some(trimmed(d))
                &&& !lacks(top, "due"@) && is_silent(top, "due"@) ==> e.due is Some
                    && e.due->Some_0.len() == 0
            },
            Err(_) => forall|u: Seq<char>, m: Seq<char>| #[trigger]
                tells(top, "uid"@, u) && #[trigger] tells(top, "summary"@, m) ==> trimmed(u).len()
                    == 0 || trimmed(m).len() == 0,
        },
{
    reveal_strlit("");
    lemma_string(top, "uid"@, ""@);
    lemma_string(top, "summary"@, ""@);
    lemma_string(top, "due"@, ""@);
    lemma_blank();
}

proof fn lemma_blank()
    ensures
        trimmed(""@).len() == 0,
{
    reveal_strlit("");
    assert(crate::text::trim_start(""@) == ""@);
}

/// A new task has the trimmed summary and due date of the message, empty where there is
/// none. A message that is no object is the summary itself, and names no due date.
pub proof fn law_create_is_read(payload: Seq<char>)
    ensures
        match json_top(payload) {
            Ok(top) => if top.is_object {
                &&& forall|m: Seq<char>| #[trigger]
                    tells(top, "summary"@, m) ==> create_in_message(payload).0 == trimmed(m)
                &&& forall|d: Seq<char>| #[trigger]
                    tells(top, "due"@, d) ==> create_in_message(payload).1 == trimmed(d)
                &&& is_silent(top, "summary"@) ==> create_in_message(payload).0.len() == 0
                &&& is_silent(top, "due"@) ==> create_in_message(payload).1.len() == 0
            } else {
                create_in_message(payload).0 == trimmed(payload) && create_in_message(
                    payload,
                ).1.len() == 0
            },
            Err(_) => create_in_message(payload).0 == trimmed(payload) && create_in_message(
                payload,
            ).1.len() == 0,
        },
{
    lemma_blank();
    if json_top(payload) is Ok {
        let top = json_top(payload)->Ok_0;
        lemma_string(top, "summary"@, ""@);
        lemma_string(top, "due"@, ""@);
    }
}

/// A transfer has the trimmed identifier and destination of the message, neither of them
/// blank, and is a copy unless the message says that it is a move; anything else is refused.
pub proof fn law_transfer_is_read(top: JsonTopV)
    ensures
        match transfer_of(top) {
            Ok(t) => {
                &&& t.uid.len() > 0 && t.destination.len() > 0
                &&& exists|u: Seq<char>| #[trigger] tells(top, "uid"@, u) && t.uid == trimmed(u)
                &&& exists|d: Seq<char>| #[trigger]
                    tells(top, "destination_id"@, d) && t.destination == trimmed(d)
                &&& tells_or(top, "operation"@, "copy"@, t.operation)
                &&& t.operation == "copy"@ || t.operation == "move"@
            },
            Err(_) => forall|u: Seq<char>, d: Seq<char>| #[trigger]
                tells(top, "uid"@, u) && #[trigger] tells(top, "destination_id"@, d) && trimmed(
                    u,
                ).len() > 0 && trimmed(d).len() > 0 ==> exists|o: Seq<char>| #[trigger]
                    tells(top, "operation"@, o) && o != "copy"@ && o != "move"@,
        },
{
    reveal_strlit("");
    lemma_blank();
    lemma_string(top, "uid"@, ""@);
    lemma_string(top, "destination_id"@, ""@);
    lemma_string(top, "operation"@, "copy"@);
}

// --- The account ---

/// A field of the form: the trimmed string of the message, none where it is blank or missing.
pub open spec fn fills(top: JsonTopV, key: Seq<char>, field: Option<Seq<char>>) -> bool {
    match field {
        Some(f) => f.len() > 0 && exists|v: Seq<char>| #[trigger]
            tells(top, key, v) && f == trimmed(v),
        None => forall|v: Seq<char>| #[trigger] tells(top, key, v) ==> trimmed(v).len() == 0,
    }
}

proof fn lemma_filled(top: JsonTopV, key: Seq<char>)
    ensures
        fills(top, key, filled(top, key)),
{
    lemma_string(top, key, ""@);
}

/// The form has the fields of the message: the trimmed user name, the lists, the password as
/// the provider allows it, and the server's address in its normal form, which is fixed for
/// Apple. Apple wants a whole address as the user name.
pub proof fn law_form_is_read(top: JsonTopV)
    ensures
        form_of(top) matches Ok(f) ==> {
            &&& exists|p: Seq<char>| #[trigger]
                tells_or(top, "provider"@, "generic"@, p) && f.provider == ascii_lower(trimmed(p))
            &&& f.username.len() > 0 && exists|u: Seq<char>| #[trigger]
                tells(top, "username"@, u) && f.username == trimmed(u)
            &&& f.provider == "icloud"@ ==> f.username.contains('@') && normalized(
                "https://caldav.icloud.com/"@,
            ) == Ok::<Seq<char>, FailureV>(f.base_url)
            &&& f.provider != "icloud"@ ==> exists|b: Seq<char>| #[trigger]
                tells_or(top, "base_url"@, ""@, b) && normalized(b) == Ok::<Seq<char>, FailureV>(
                    f.base_url,
                )
            &&& f.base_url.len() > 0
            &&& exists|w: Seq<char>| #[trigger]
                tells_or(top, "app_password"@, ""@, w) && f.new_password == if f.provider
                    == "icloud"@ {
                    w.filter(|c: char| !is_space(c))
                } else {
                    w
                }
            &&& fills(top, "calendar"@, f.calendar)
            &&& fills(top, "calendar_href"@, f.calendar_href)
            &&& fills(top, "active_list"@, f.active_list)
        },
{
    lemma_string(top, "provider"@, "generic"@);
    lemma_string(top, "username"@, ""@);
    lemma_string(top, "base_url"@, ""@);
    lemma_string(top, "app_password"@, ""@);
    lemma_filled(top, "calendar"@);
    lemma_filled(top, "calendar_href"@);
    lemma_filled(top, "active_list"@);
    lemma_blank();
    assert(crate::account::not_space() =~= (|c: char| !is_space(c)));
    if form_of(top) is Ok {
        let f = form_of(top)->Ok_0;
        if f.provider == "icloud"@ {
            lemma_at(f.username);
        }
        assert(tells_or(top, "provider"@, "generic"@, top.string_or("provider"@, "generic"@)));
        assert(tells_or(top, "base_url"@, ""@, top.string_or("base_url"@, ""@)));
        assert(tells_or(top, "app_password"@, ""@, top.string_or("app_password"@, ""@)));
        assert(tells_or(top, "username"@, ""@, top.string_or("username"@, ""@)));
    }
}

proof fn lemma_at(username: Seq<char>)
    requires
        has_sub(username, "@"@),
    ensures
        username.contains('@'),
{
    reveal_strlit("@");
    let i = choose|i: int| stands_at(username, "@"@, i);
    assert(username.subrange(i, i + 1)[0] == '@');
    assert(username[i] == '@');
}

/// The same account as the one that is stored.
pub open spec fn is_same_account(f: AccountFormV, o: ConfigV) -> bool {
    f.provider == o.caldav.provider && f.base_url == o.caldav.base_url && f.username
        == o.caldav.username
}

/// `password` is the one to use: the one that was submitted, or else the stored one of the
/// same account.
pub open spec fn is_password(f: AccountFormV, old: Option<ConfigV>, password: Seq<char>) -> bool {
    &&& password.len() > 0
    &&& f.new_password.len() > 0 ==> password == f.new_password
    &&& f.new_password.len() == 0 ==> (old matches Some(o) && is_same_account(f, o) && password
        == o.caldav.app_password)
}

/// Saving stores what was submitted. The password is the submitted one, or else the stored
/// one of the same account; without either it is refused, so that a stored password never
/// goes to another account. The list to work on is the submitted one, or else the
/// collection, or else the device's own. The cache goes just where the server or the
/// collection is another one.
pub proof fn law_saved_settings(f: AccountFormV, old: Option<ConfigV>)
    ensures
        match settled(f, old) {
            Ok(done) => {
                let c = done.0;
                &&& is_password(f, old, c.caldav.app_password)
                &&& c.caldav.provider == f.provider && c.caldav.base_url == f.base_url
                    && c.caldav.username == f.username
                &&& c.caldav.calendar == f.calendar && c.caldav.calendar_href == f.calendar_href
                &&& f.active_list is Some ==> c.active_list == f.active_list
                &&& f.active_list is None && f.calendar_href is Some ==> c.active_list
                    == f.calendar_href
                &&& f.active_list is None && f.calendar_href is None ==> c.active_list == Some(
                    "local://default"@,
                )
                &&& !done.1 == (old matches Some(o) && o.caldav.base_url == f.base_url
                    && o.caldav.calendar_href == f.calendar_href)
            },
            Err(_) => forall|p: Seq<char>| !(#[trigger] is_password(f, old, p)),
        },
{
    reveal_strlit("");
}

/// Trying an account out uses what was submitted, with the same password as saving it would,
/// and names no list.
pub proof fn law_tried_account(f: AccountFormV, old: Option<ConfigV>)
    ensures
        match trial(f, old) {
            Ok(c) => {
                &&& is_password(f, old, c.app_password)
                &&& c.provider == f.provider && c.base_url == f.base_url && c.username == f.username
                &&& c.calendar is None && c.calendar_href is None
            },
            Err(_) => forall|p: Seq<char>| !(#[trigger] is_password(f, old, p)),
        },
        trial(f, old) is Ok == settled(f, old) is Ok,
{
    reveal_strlit("");
}

/// The form shows what is stored, but for the password, of which it shows whether there is
/// one. The list that it shows is the one to work on.
pub proof fn law_form_shows(c: ConfigV)
    ensures
        form_view(None) is Blank,
        form_view(Some(c)) matches FormAnswerV::Stored {
            provider,
            base_url,
            username,
            calendar,
            calendar_href,
            active_list,
            has_password,
        } && {
            &&& provider == c.caldav.provider && base_url == c.caldav.base_url && username
                == c.caldav.username
            &&& calendar == c.caldav.calendar && calendar_href == c.caldav.calendar_href
            &&& c.active_list is Some ==> active_list == c.active_list
            &&& c.active_list is None ==> active_list == c.caldav.calendar_href
            &&& has_password == (c.caldav.app_password.len() > 0)
        },
{
}

/// What is saved is what the form shows afterwards.
pub proof fn law_saved_settings_show(f: AccountFormV, old: Option<ConfigV>)
    requires
        settled(f, old) is Ok,
    ensures
        form_view(Some(settled(f, old)->Ok_0.0)) matches FormAnswerV::Stored {
            provider,
            base_url,
            username,
            calendar,
            calendar_href,
            active_list,
            has_password,
        } && {
            &&& provider == f.provider && base_url == f.base_url && username == f.username
            &&& calendar == f.calendar && calendar_href == f.calendar_href
            &&& f.active_list is Some ==> active_list == f.active_list
            &&& has_password
        },
{
}

/// There is a server to sync with where neither its address nor the user name is blank, and
/// there is a password.
pub proof fn law_account_is_complete(c: ConfigV)
    ensures
        account_set_up(c) ==> c.caldav.app_password.len() > 0,
        account_set_up(c) ==> exists|i: int|
            0 <= i < c.caldav.base_url.len() && !is_space(#[trigger] c.caldav.base_url[i]),
        account_set_up(c) ==> exists|i: int|
            0 <= i < c.caldav.username.len() && !is_space(#[trigger] c.caldav.username[i]),
        !account_set_up(c) ==> c.caldav.app_password.len() == 0 || (forall|i: int|
            0 <= i < c.caldav.base_url.len() ==> is_space(#[trigger] c.caldav.base_url[i])) || (
        forall|i: int|
            0 <= i < c.caldav.username.len() ==> is_space(#[trigger] c.caldav.username[i])),
{
    lemma_trimmed_blank(c.caldav.base_url);
    lemma_trimmed_blank(c.caldav.username);
}

proof fn lemma_trimmed_blank(s: Seq<char>)
    ensures
        trimmed(s).len() == 0 ==> forall|i: int| 0 <= i < s.len() ==> is_space(#[trigger] s[i]),
        trimmed(s).len() > 0 ==> exists|i: int| 0 <= i < s.len() && !is_space(#[trigger] s[i]),
{
    let (a, b) = crate::trim_laws::lemma_trimmed_range(s);
    if trimmed(s).len() > 0 {
        assert(!is_space(s[a]));
    }
}

/// The list to work on is the selected one where it is the device's own or is known; else
/// the first one under the name in the settings; else the device's own. Settings without a
/// selected list select the collection.
pub proof fn law_list_to_work_on(s: StoreV, cfg: ConfigV)
    ensures
        ({
            let chosen = if cfg.active_list is Some {
                cfg.active_list
            } else {
                cfg.caldav.calendar_href
            };
            let is_usable = chosen matches Some(id) && (id == "local://default"@ || exists|i: int|
                0 <= i < s.calendars.len() && (#[trigger] s.calendars[i]).href == id);
            &&& is_usable ==> active_href(s, cfg) == chosen->Some_0
            &&& !is_usable ==> {
                ||| cfg.caldav.calendar matches Some(name) && exists|i: int|
                    {
                        &&& 0 <= i < s.calendars.len()
                        &&& (#[trigger] s.calendars[i]).display_name == name && s.calendars[i].href
                            == active_href(s, cfg)
                        &&& forall|j: int|
                            0 <= j < i ==> (#[trigger] s.calendars[j]).display_name != name
                    }
                ||| {
                    &&& active_href(s, cfg) == "local://default"@
                    &&& cfg.caldav.calendar matches Some(name) ==> forall|i: int|
                        0 <= i < s.calendars.len() ==> (#[trigger] s.calendars[i]).display_name
                            != name
                }
            }
        }),
{
    let chosen = if cfg.active_list is Some {
        cfg.active_list
    } else {
        cfg.caldav.calendar_href
    };
    let id = if chosen is Some {
        chosen->Some_0
    } else {
        Seq::empty()
    };
    let name = if cfg.caldav.calendar is Some {
        cfg.caldav.calendar->Some_0
    } else {
        Seq::empty()
    };
    law_lists_are_looked_up(s, id, name);
}

/// The list to sync is the first one at the address in the settings; where they have no
/// address, the first one under the name in them.
pub proof fn law_list_to_sync(cfg: CaldavConfigV, cals: Seq<CalendarV>)
    ensures
        ({
            let k = picked(cfg, cals) as int;
            let fits = |c: CalendarV|
                match cfg.calendar_href {
                    Some(h) => c.href == h,
                    None => cfg.calendar == Some(c.display_name),
                };
            &&& 0 <= k <= cals.len()
            &&& k < cals.len() ==> fits(cals[k])
            &&& forall|i: int| 0 <= i < k ==> !fits(#[trigger] cals[i])
        }),
{
    if cfg.calendar_href is Some {
        lemma_find(cals, with_href(cfg.calendar_href->Some_0), 0);
        assert forall|i: int| 0 <= i < picked(cfg, cals) implies (#[trigger] cals[i]).href
            != cfg.calendar_href->Some_0 by {
            assert(!with_href(cfg.calendar_href->Some_0)(cals[i]));
        }
    } else if cfg.calendar is Some {
        lemma_find(cals, with_name(cfg.calendar->Some_0), 0);
        assert forall|i: int| 0 <= i < picked(cfg, cals) implies (#[trigger] cals[i]).display_name
            != cfg.calendar->Some_0 by {
            assert(!with_name(cfg.calendar->Some_0)(cals[i]));
        }
    }
}

// --- The server's address ---

/// An address without a scheme is read as one of the secure web: it is the same with that
/// scheme in front.
pub proof fn law_scheme_is_added(input: Seq<char>)
    requires
        input.len() > 0,
        !is_space(input[0]),
        !is_space(input.last()),
        input.last() != '/',
        !holds(input, "://"@),
    ensures
        normalized(input) == normalized("https://"@ + input),
{
    crate::trim_laws::law_trimmed_twice(input);
    reveal_strlit("https://");
    reveal_strlit("://");
    let full = "https://"@ + input;
    assert(full[0] == 'h');
    assert(full.last() == input.last());
    crate::trim_laws::law_trimmed_twice(full);
    let raw = crate::text::trim_end_char(trimmed(input), '/');
    assert(raw == input);
    assert(!has_sub(input, "://"@)) by {
        if has_sub(input, "://"@) {
            let i = choose|i: int| stands_at(input, "://"@, i);
            assert(input.subrange(i, i + "://"@.len()) == "://"@);
        }
    }
    assert(crate::text::trim_end_char(trimmed(full), '/') == full);
    assert(full.subrange(5, 8) =~= "://"@);
    assert(stands_at(full, "://"@, 5));
}

/// White space around an address and slashes behind it make no difference.
pub proof fn law_address_is_trimmed(input: Seq<char>)
    ensures
        normalized(trimmed(input)) == normalized(input),
        trimmed(input).len() > 0 && trimmed(input).last() == '/' ==> normalized(
            trimmed(input).drop_last(),
        ) == normalized(input) || is_space(trimmed(input).drop_last().last()),
{
    let t = trimmed(input);
    crate::trim_laws::law_trimmed_twice(input);
    if t.len() > 0 && t.last() == '/' {
        let d = t.drop_last();
        if d.len() > 0 && !is_space(d.last()) {
            let r = crate::trim_laws::lemma_trimmed_range(input);
            assert(t[0] == input[r.0]);
            assert(d[0] == t[0]);
            crate::trim_laws::law_trimmed_twice(d);
        } else if d.len() == 0 {
            lemma_blank();
            assert(d =~= ""@) by {
                reveal_strlit("");
            }
            assert(crate::text::trim_end_char(t, '/') == crate::text::trim_end_char(d, '/'));
            assert(trimmed(d) =~= d);
        }
    }
}

/// The address in its normal form: of a web address with a host, read without its query and
/// its fragment, it is the text without slashes at the end; where the path ends in that of
/// the DAV root, that is taken off.
pub proof fn law_address_in_normal_form(input: Seq<char>)
    ensures
        ({
            let raw = crate::text::trim_end_char(trimmed(input), '/');
            let text = if has_sub(raw, "://"@) {
                raw
            } else {
                "https://"@ + raw
            };
            normalized(input) matches Ok(u) ==> {
                &&& raw.len() > 0
                &&& crate::weburl::parsed_url(text) matches Ok(p) && (p.scheme == "http"@
                    || p.scheme == "https"@) && p.host is Some && {
                    let bare = crate::weburl::without_fragment(
                        crate::weburl::without_query(p.text)->Some_0,
                    )->Some_0;
                    crate::weburl::parsed_url(bare) matches Ok(q) && {
                        let path = crate::text::trim_end_char(q.path, '/');
                        let dav = "/remote.php/dav"@;
                        let below = path.len() >= dav.len() && path.subrange(
                            path.len() - dav.len(),
                            path.len() as int,
                        ) == dav;
                        &&& !holds(path, "/remote.php/dav/"@)
                        &&& !below ==> u == crate::text::trim_end_char(q.text, '/')
                        &&& below && path.len() > dav.len() ==> (crate::weburl::with_path(
                            q.text,
                            path.take(path.len() - dav.len()),
                        ) matches Some(w) && u == crate::text::trim_end_char(w, '/'))
                        &&& below && path.len() == dav.len() ==> (crate::weburl::with_path(
                            q.text,
                            "/"@,
                        ) matches Some(w) && u == crate::text::trim_end_char(w, '/'))
                    }
                }
            }
        }),
{
    let raw = crate::text::trim_end_char(trimmed(input), '/');
    let text = if has_sub(raw, "://"@) {
        raw
    } else {
        "https://"@ + raw
    };
    if normalized(input) is Ok {
        let p = crate::weburl::parsed_url(text)->Ok_0;
        let bare = crate::account::bare_url(p.text)->Some_0;
        let q = crate::weburl::parsed_url(bare)->Ok_0;
        let path = crate::text::trim_end_char(q.path, '/');
        let w = "/remote.php/dav/"@;
        if holds(path, w) {
            let i = choose|i: int|
                0 <= i && i + w.len() <= path.len() && #[trigger] path.subrange(i, i + w.len())
                    == w;
            assert(stands_at(path, w, i));
        }
    }
}

/// What the user is told of a failed search ends in the words of the failure. Words of
/// advice stand in front where the failure names a host that is not found, an address that
/// cannot be read, a refusal, or a timeout; else the words of the failure stand alone.
pub proof fn law_failed_search_is_explained(msg: Seq<char>)
    ensures
        ({
            let low = ascii_lower(msg);
            let lost = holds(low, "no address associated with hostname"@) || holds(
                low,
                "failed to lookup address information"@,
            ) || holds(low, "dns"@);
            let bad = holds(low, "parsing server url"@) || holds(low, "parsing base_url"@);
            let denied = holds(low, "401"@) || holds(low, "403"@);
            let late = holds(low, "timed out"@) || holds(low, "timeout"@);
            discover_message(msg) == (if lost {
                "Could not resolve the server hostname. Check the Server URL. Details: "@
            } else if bad {
                "Server URL is not valid. Use a bare URL like https://nextcloud.example.com. Details: "@
            } else if denied {
                "The CalDAV server rejected the username or app password. Details: "@
            } else if late {
                "DAV-DISCOVERY-TIMEOUT: the CalDAV discovery request timed out. Details: "@
            } else {
                Seq::<char>::empty()
            }) + msg
        }),
{
    let low = ascii_lower(msg);
    lemma_holds(low, "no address associated with hostname"@);
    lemma_holds(low, "failed to lookup address information"@);
    lemma_holds(low, "dns"@);
    lemma_holds(low, "parsing server url"@);
    lemma_holds(low, "parsing base_url"@);
    lemma_holds(low, "401"@);
    lemma_holds(low, "403"@);
    lemma_holds(low, "timed out"@);
    lemma_holds(low, "timeout"@);
    assert(Seq::<char>::empty() + msg =~= msg);
}

/// The form is refused only where its address is no server's, where it has no user name, or
/// where Apple's user name is no whole address.
pub proof fn law_form_is_accepted(top: JsonTopV, username: Seq<char>, base_url: Seq<char>)
    requires
        tells(top, "username"@, username),
        trimmed(username).len() > 0,
        is_silent(top, "provider"@) || exists|p: Seq<char>| #[trigger]
            tells(top, "provider"@, p) && ascii_lower(trimmed(p)) != "icloud"@,
        tells(top, "base_url"@, base_url),
        normalized(base_url) matches Ok(u) && u.len() > 0,
    ensures
        form_of(top) is Ok,
{
    lemma_string(top, "provider"@, "generic"@);
    lemma_string(top, "username"@, ""@);
    lemma_string(top, "base_url"@, ""@);
    if is_silent(top, "provider"@) {
        reveal_strlit("generic");
        reveal_strlit("icloud");
        let g = "generic"@;
        crate::trim_laws::law_trimmed_twice(g);
        assert(trimmed(g) == g);
        assert(ascii_lower(g).len() == 7);
        assert("icloud"@.len() == 6);
    }
}

/// An address of the web with a host is accepted where it is not below the DAV root.
pub proof fn law_address_is_accepted(input: Seq<char>)
    ensures
        ({
            let raw = crate::text::trim_end_char(trimmed(input), '/');
            let text = if has_sub(raw, "://"@) {
                raw
            } else {
                "https://"@ + raw
            };
            let dav = "/remote.php/dav"@;
            raw.len() > 0 ==> (crate::weburl::parsed_url(text) matches Ok(p) ==> (p.scheme
                == "http"@ || p.scheme == "https"@) && p.host is Some ==> (
            crate::weburl::without_query(p.text) matches Some(w)
                ==> crate::weburl::without_fragment(w) matches Some(bare)
                ==> crate::weburl::parsed_url(bare) matches Ok(q) ==> {
                let path = crate::text::trim_end_char(q.path, '/');
                !holds(path, "/remote.php/dav/"@) && !(path.len() >= dav.len() && path.subrange(
                    path.len() - dav.len(),
                    path.len() as int,
                ) == dav) ==> normalized(input) is Ok
            }))
        }),
{
    let raw = crate::text::trim_end_char(trimmed(input), '/');
    let text = if has_sub(raw, "://"@) {
        raw
    } else {
        "https://"@ + raw
    };
    if raw.len() > 0 {
        match crate::weburl::parsed_url(text) {
            Ok(p) => match crate::account::bare_url(p.text) {
                Some(bare) => match crate::weburl::parsed_url(bare) {
                    Ok(q) => {
                        lemma_holds(
                            crate::text::trim_end_char(q.path, '/'),
                            "/remote.php/dav/"@,
                        );
                    },
                    Err(_) => {},
                },
                None => {},
            },
            Err(_) => {},
        }
    }
}

} // verus!
