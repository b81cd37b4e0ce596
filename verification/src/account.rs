//! The settings form: reading it, checking it, and merging it with what is stored.
use vstd::prelude::*;
use crate::config::{
    active_list, merge_password, merged_password, selected_list, CaldavConfig, CaldavConfigV,
    Config, ConfigV, LOCAL_LIST_ID,
};
use crate::failure::{in_context, plain, Failure, FailureV};
use crate::json::{json_top, read_json, JsonTop, JsonTopV};
use crate::store::{copy_opt, own_opt};
use crate::text::{
    ascii_lower, char_count, chars_of, contains, debug_quoted, debug_text, ends_with,
    finishes_with, has_sub, is_space, is_space_char, opt_eq, opt_str, opt_text, str_eq,
    take_chars, to_ascii_lower, trim, trim_end_char, trim_end_of, trimmed,
};
use crate::weburl::{
    drop_fragment, drop_query, fits_path, parsed_url, path_fits, read_url, replace_path,
    url_result, with_path, without_fragment, without_query,
};

verus! {

// --- The server's address ---

/// A server that no URL can name.
pub open spec fn bad_server_url(why: Seq<char>) -> FailureV {
    in_context(plain(why), "parsing server URL"@)
}

/// The address with the path to the DAV root taken off again, where it ends in
/// it.
pub open spec fn server_root(url: Seq<char>, path: Seq<char>) -> Result<Seq<char>, FailureV> {
    let n = path.len() - "/remote.php/dav"@.len();
    if has_sub(path, "/remote.php/dav/"@) {
        Err(
            plain(
                "use the bare Nextcloud server URL, not a CalDAV collection URL; remove /remote.php/dav/..."@,
            ),
        )
    } else if finishes_with(path, "/remote.php/dav"@) {
        let root = if n == 0 {
            "/"@
        } else {
            path.take(n)
        };
        if !path_fits(url, root) {
            Err(bad_server_url("URLs more than 4 GB are not supported"@))
        } else {
            match with_path(url, root) {
                Some(u) => Ok(trim_end_char(u, '/')),
                None => Err(bad_server_url("relative URL without a base"@)),
            }
        }
    } else {
        Ok(trim_end_char(url, '/'))
    }
}

/// The address without query and fragment.
pub open spec fn bare_url(url: Seq<char>) -> Option<Seq<char>> {
    match without_query(url) {
        Some(u) => without_fragment(u),
        None => None,
    }
}

/// The address, read as a server's.
pub open spec fn server_url(raw: Seq<char>) -> Result<Seq<char>, FailureV> {
    match parsed_url(raw) {
        Err(e) => Err(bad_server_url(e)),
        Ok(p) => if p.scheme != "http"@ && p.scheme != "https"@ {
            Err(
                plain(
                    "server URL must start with http:// or https://, not "@ + debug_text(
                        p.scheme,
                    ),
                ),
            )
        } else if p.host is None {
            Err(plain("server URL must include a hostname"@))
        } else {
            match bare_url(p.text) {
                None => Err(bad_server_url("relative URL without a base"@)),
                Some(u) => match parsed_url(u) {
                    Err(e) => Err(bad_server_url(e)),
                    Ok(q) => server_root(q.text, trim_end_char(q.path, '/')),
                },
            }
        },
    }
}

/// The server's address as the user typed it, in its normal form: with a scheme,
/// without query, fragment, DAV path and trailing slashes.
pub open spec fn normalized(input: Seq<char>) -> Result<Seq<char>, FailureV> {
    let raw = trim_end_char(trimmed(input), '/');
    if raw.len() == 0 {
        Err(plain("base_url is required"@))
    } else if has_sub(raw, "://"@) {
        server_url(raw)
    } else {
        server_url("https://"@ + raw)
    }
}

proof fn lemma_trimmed_end(s: Seq<char>, c: char)
    ensures
        trim_end_char(s, c).len() > 0 ==> trim_end_char(s, c).last() != c,
    decreases s.len(),
{
    if s.len() > 0 && s.last() == c {
        lemma_trimmed_end(s.drop_last(), c);
    }
}

/// A server's address in its normal form does not end in a slash.
pub proof fn law_base_url_has_no_trailing_slash(input: Seq<char>)
    ensures
        normalized(input) matches Ok(u) ==> u.len() == 0 || u.last() != '/',
{
    let raw = trim_end_char(trimmed(input), '/');
    let text = if has_sub(raw, "://"@) {
        raw
    } else {
        "https://"@ + raw
    };
    match parsed_url(text) {
        Ok(p) => match bare_url(p.text) {
            Some(u) => match parsed_url(u) {
                Ok(q) => {
                    let path = trim_end_char(q.path, '/');
                    let n = path.len() - "/remote.php/dav"@.len();
                    let root = if n == 0 {
                        "/"@
                    } else {
                        path.take(n)
                    };
                    lemma_trimmed_end(q.text, '/');
                    if with_path(q.text, root) is Some {
                        lemma_trimmed_end(with_path(q.text, root)->Some_0, '/');
                    }
                },
                Err(_) => {},
            },
            None => {},
        },
        Err(_) => {},
    }
}

/// A blank address, one with another scheme than the web's, and one of a collection
/// below the DAV root are refused.
pub proof fn law_base_url_refused(input: Seq<char>)
    ensures
        ({
            let raw = trim_end_char(trimmed(input), '/');
            let text = if has_sub(raw, "://"@) {
                raw
            } else {
                "https://"@ + raw
            };
            &&& raw.len() == 0 ==> normalized(input) is Err
            &&& parsed_url(text) is Err ==> normalized(input) is Err
            &&& parsed_url(text) matches Ok(p) ==> {
                &&& p.scheme != "http"@ && p.scheme != "https"@ ==> normalized(input) is Err
                &&& p.host is None ==> normalized(input) is Err
                &&& bare_url(p.text) matches Some(u) ==> (parsed_url(u) matches Ok(q) ==> (has_sub(
                    trim_end_char(q.path, '/'),
                    "/remote.php/dav/"@,
                ) ==> normalized(input) is Err))
            }
        }),
{
}

fn bad_url(why: &str) -> (f: Failure)
    ensures
        f@ == bad_server_url(why@),
{
    Failure::new(why).context("parsing server URL")
}

fn cut_to_root(url: &str, path: &str) -> (r: Result<String, Failure>)
    ensures
        url_result(r) == server_root(url@, path@),
{
    if contains(path, "/remote.php/dav/") {
        return Err(
            Failure::new(
                "use the bare Nextcloud server URL, not a CalDAV collection URL; remove /remote.php/dav/...",
            ),
        );
    }
    if !ends_with(path, "/remote.php/dav") {
        return Ok(trim_end_of(url, '/'));
    }
    let n = char_count(path);
    let m = char_count("/remote.php/dav");
    proof {
        reveal_strlit("/");
    }
    let prefix = if n == m {
        "/".to_owned()
    } else {
        take_chars(path, n - m)
    };
    if !fits_path(url, prefix.as_str()) {
        return Err(bad_url("URLs more than 4 GB are not supported"));
    }
    match replace_path(url, prefix.as_str()) {
        Some(u) => Ok(trim_end_of(u.as_str(), '/')),
        None => Err(bad_url("relative URL without a base")),
    }
}

fn read_server_url(raw: &str) -> (r: Result<String, Failure>)
    ensures
        url_result(r) == server_url(raw@),
{
    let p = match read_url(raw) {
        Err(e) => {
            return Err(bad_url(e.as_str()));
        },
        Ok(p) => p,
    };
    if !str_eq(p.scheme.as_str(), "http") && !str_eq(p.scheme.as_str(), "https") {
        let mut m = "server URL must start with http:// or https://, not ".to_owned();
        m.append(debug_quoted(p.scheme.as_str()).as_str());
        return Err(Failure::from_message(m));
    }
    if p.host.is_none() {
        return Err(Failure::new("server URL must include a hostname"));
    }
    let bare = match drop_query(p.text.as_str()) {
        Some(u) => drop_fragment(u.as_str()),
        None => None,
    };
    match bare {
        None => Err(bad_url("relative URL without a base")),
        Some(u) => match read_url(u.as_str()) {
            Err(e) => Err(bad_url(e.as_str())),
            Ok(q) => cut_to_root(q.text.as_str(), trim_end_of(q.path.as_str(), '/').as_str()),
        },
    }
}

/// Puts the server's address into its normal form.
pub fn normalize_base_url(input: &str) -> (r: Result<String, Failure>)
    ensures
        url_result(r) == normalized(input@),
{
    let raw = trim_end_of(trim(input).as_str(), '/');
    if char_count(raw.as_str()) == 0 {
        return Err(Failure::new("base_url is required"));
    }
    if contains(raw.as_str(), "://") {
        read_server_url(raw.as_str())
    } else {
        let mut full = "https://".to_owned();
        full.append(raw.as_str());
        read_server_url(full.as_str())
    }
}

// --- Provider rules ---

/// Apple wants the whole address as the user name.
pub open spec fn identity_ok(provider: Seq<char>, username: Seq<char>) -> bool {
    provider == "icloud"@ ==> has_sub(username, "@"@)
}

/// Checks the user name against what the provider wants.
pub fn validate_account_identity(provider: &str, username: &str) -> (r: Result<(), Failure>)
    ensures
        match r {
            Ok(()) => identity_ok(provider@, username@),
            Err(e) => !identity_ok(provider@, username@) && e@ == plain(
                "iCloud username must be the full Apple Account email address"@,
            ),
        },
{
    if str_eq(provider, "icloud") && !contains(username, "@") {
        return Err(Failure::new("iCloud username must be the full Apple Account email address"));
    }
    Ok(())
}

pub open spec fn not_space() -> spec_fn(char) -> bool {
    |c: char| !is_space(c)
}

/// Apple's passwords are pasted in groups: the white space is dropped.
pub open spec fn submitted_password(provider: Seq<char>, password: Seq<char>) -> Seq<char> {
    if provider == "icloud"@ {
        password.filter(not_space())
    } else {
        password
    }
}

/// Cleans a password as the provider allows.
pub fn normalize_submitted_password(provider: &str, password: &str) -> (r: String)
    ensures
        r@ == submitted_password(provider@, password@),
{
    if !str_eq(provider, "icloud") {
        return password.to_owned();
    }
    let v = chars_of(password);
    let mut r = String::new();
    let mut i: usize = 0;
    proof {
        reveal(Seq::filter);
        assert(v@.take(0) =~= Seq::empty());
    }
    while i < v.len()
        invariant
            i <= v@.len(),
            r@ == v@.take(i as int).filter(not_space()),
        decreases v@.len() - i,
    {
        proof {
            crate::seqs::lemma_filter_step(v@, not_space(), i as int);
        }
        if !is_space_char(v[i]) {
            r.push(v[i]);
        }
        i += 1;
    }
    assert(v@.take(i as int) =~= password@);
    r
}

// --- The form ---

/// The settings as the user submitted them, checked and in normal form.
#[derive(Debug)]
pub struct AccountForm {
    pub provider: String,
    pub base_url: String,
    pub username: String,
    pub new_password: String,
    pub calendar: Option<String>,
    pub calendar_href: Option<String>,
    pub active_list: Option<String>,
}

#[verifier::ext_equal]
pub struct AccountFormV {
    pub provider: Seq<char>,
    pub base_url: Seq<char>,
    pub username: Seq<char>,
    pub new_password: Seq<char>,
    pub calendar: Option<Seq<char>>,
    pub calendar_href: Option<Seq<char>>,
    pub active_list: Option<Seq<char>>,
}

impl View for AccountForm {
    type V = AccountFormV;

    open spec fn view(&self) -> AccountFormV {
        AccountFormV {
            provider: self.provider@,
            base_url: self.base_url@,
            username: self.username@,
            new_password: self.new_password@,
            calendar: opt_text(self.calendar),
            calendar_href: opt_text(self.calendar_href),
            active_list: opt_text(self.active_list),
        }
    }
}

/// A trimmed member of the form, none where it is blank.
pub open spec fn filled(top: JsonTopV, key: Seq<char>) -> Option<Seq<char>> {
    match top.string(key) {
        Some(s) => if trimmed(s).len() == 0 {
            None
        } else {
            Some(trimmed(s))
        },
        None => None,
    }
}

/// The provider, `generic` where none is given.
pub open spec fn form_provider(top: JsonTopV) -> Seq<char> {
    ascii_lower(trimmed(top.string_or("provider"@, "generic"@)))
}

/// The server, fixed for Apple.
pub open spec fn form_server(top: JsonTopV) -> Seq<char> {
    if form_provider(top) == "icloud"@ {
        "https://caldav.icloud.com/"@
    } else {
        top.string_or("base_url"@, ""@)
    }
}

/// The form, checked.
pub open spec fn form_of(top: JsonTopV) -> Result<AccountFormV, FailureV> {
    let provider = form_provider(top);
    let username = trimmed(top.string_or("username"@, ""@));
    match normalized(form_server(top)) {
        Err(e) => Err(e),
        Ok(base_url) => if !identity_ok(provider, username) {
            Err(plain("iCloud username must be the full Apple Account email address"@))
        } else if base_url.len() == 0 || username.len() == 0 {
            Err(plain("base_url and username are required"@))
        } else {
            Ok(
                AccountFormV {
                    provider,
                    base_url,
                    username,
                    new_password: submitted_password(
                        provider,
                        top.string_or("app_password"@, ""@),
                    ),
                    calendar: filled(top, "calendar"@),
                    calendar_href: filled(top, "calendar_href"@),
                    active_list: filled(top, "active_list"@),
                },
            )
        },
    }
}

/// The form in a message.
pub open spec fn form_in(payload: Seq<char>) -> Result<AccountFormV, FailureV> {
    match json_top(payload) {
        Ok(top) => form_of(top),
        Err(e) => Err(plain(e)),
    }
}

pub open spec fn form_result(r: Result<AccountForm, Failure>) -> Result<AccountFormV, FailureV> {
    match r {
        Ok(f) => Ok(f@),
        Err(e) => Err(e@),
    }
}

fn filled_field(top: &JsonTop, key: &str) -> (r: Option<String>)
    ensures
        opt_text(r) == filled(top@, key@),
{
    match top.str_field(key) {
        Some(s) => {
            let t = trim(s.as_str());
            if char_count(t.as_str()) == 0 {
                None
            } else {
                Some(t)
            }
        },
        None => None,
    }
}

/// Checks the members of the form.
pub fn read_account_form(top: &JsonTop) -> (r: Result<AccountForm, Failure>)
    ensures
        form_result(r) == form_of(top@),
{
    let provider = to_ascii_lower(trim(top.str_field_or("provider", "generic").as_str()).as_str());
    let server = if str_eq(provider.as_str(), "icloud") {
        "https://caldav.icloud.com/".to_owned()
    } else {
        top.str_field_or("base_url", "")
    };
    let base_url = match normalize_base_url(server.as_str()) {
        Ok(u) => u,
        Err(e) => {
            return Err(e);
        },
    };
    let username = trim(top.str_field_or("username", "").as_str());
    match validate_account_identity(provider.as_str(), username.as_str()) {
        Ok(()) => {},
        Err(e) => {
            return Err(e);
        },
    }
    let new_password = normalize_submitted_password(
        provider.as_str(),
        top.str_field_or("app_password", "").as_str(),
    );
    let calendar = filled_field(top, "calendar");
    let calendar_href = filled_field(top, "calendar_href");
    let active_list = filled_field(top, "active_list");
    if char_count(base_url.as_str()) == 0 || char_count(username.as_str()) == 0 {
        return Err(Failure::new("base_url and username are required"));
    }
    Ok(
        AccountForm {
            provider,
            base_url,
            username,
            new_password,
            calendar,
            calendar_href,
            active_list,
        },
    )
}

/// Reads the form out of a message.
pub fn parse_account_form(payload: &str) -> (r: Result<AccountForm, Failure>)
    ensures
        form_result(r) == form_in(payload@),
{
    match read_json(payload) {
        Ok(top) => read_account_form(&top),
        Err(e) => Err(Failure::from_message(e)),
    }
}

// --- Merging with what is stored ---

pub open spec fn opt_config(c: Option<&Config>) -> Option<ConfigV> {
    match c {
        Some(x) => Some(x@),
        None => None,
    }
}

/// Does a new target make the cache worthless? A new server or collection does; a
/// new user or password does not.
pub open spec fn new_target(
    old: Option<ConfigV>,
    base_url: Seq<char>,
    calendar_href: Option<Seq<char>>,
) -> bool {
    match old {
        None => true,
        Some(o) => o.caldav.base_url != base_url || o.caldav.calendar_href != calendar_href,
    }
}

/// Decides whether the sync target changed.
pub fn target_changed(
    old: Option<&Config>,
    base_url: &str,
    calendar_href: &Option<String>,
) -> (r: bool)
    ensures
        r == new_target(opt_config(old), base_url@, opt_text(*calendar_href)),
{
    match old {
        None => true,
        Some(o) => {
            let a = match &o.caldav.calendar_href {
                Some(h) => Some(h.as_str()),
                None => None,
            };
            let b = match calendar_href {
                Some(h) => Some(h.as_str()),
                None => None,
            };
            !str_eq(o.caldav.base_url.as_str(), base_url) || !opt_eq(a, b)
        },
    }
}

/// The stored password, where the form is for the same account.
pub open spec fn known_password(old: Option<ConfigV>, f: AccountFormV) -> Option<Seq<char>> {
    match old {
        None => None,
        Some(o) => if o.caldav.provider == f.provider && o.caldav.base_url == f.base_url
            && o.caldav.username == f.username {
            Some(o.caldav.app_password)
        } else {
            None
        },
    }
}

/// The list to work on after saving: the one submitted, or the collection, or the
/// device's own.
pub open spec fn list_to_select(f: AccountFormV) -> Seq<char> {
    match f.active_list {
        Some(l) => l,
        None => match f.calendar_href {
            Some(h) => h,
            None => LOCAL_LIST_ID@,
        },
    }
}

/// The settings to store, and whether the cache has to go.
pub open spec fn settled(f: AccountFormV, old: Option<ConfigV>) -> Result<
    (ConfigV, bool),
    FailureV,
> {
    let password = merged_password(f.new_password, known_password(old, f));
    if password.len() == 0 {
        Err(plain("an app password is required when the CalDAV account changes"@))
    } else {
        Ok(
            (
                ConfigV {
                    active_list: Some(list_to_select(f)),
                    caldav: CaldavConfigV {
                        provider: f.provider,
                        base_url: f.base_url,
                        username: f.username,
                        app_password: password,
                        calendar_href: f.calendar_href,
                        calendar: f.calendar,
                    },
                },
                new_target(old, f.base_url, f.calendar_href),
            ),
        )
    }
}

pub open spec fn settled_result(r: Result<(Config, bool), Failure>) -> Result<
    (ConfigV, bool),
    FailureV,
> {
    match r {
        Ok(p) => Ok((p.0@, p.1)),
        Err(e) => Err(e@),
    }
}

fn stored_password<'a>(old: Option<&'a Config>, form: &AccountForm) -> (r: Option<&'a str>)
    ensures
        opt_str(r) == known_password(opt_config(old), form@),
{
    match old {
        None => None,
        Some(o) => {
            if str_eq(o.caldav.provider.as_str(), form.provider.as_str()) && str_eq(
                o.caldav.base_url.as_str(),
                form.base_url.as_str(),
            ) && str_eq(o.caldav.username.as_str(), form.username.as_str()) {
                Some(o.caldav.app_password.as_str())
            } else {
                None
            }
        },
    }
}

/// Works out the settings to store. A blank password keeps the stored one of the
/// same account.
pub fn save_config_inner(form: &AccountForm, old: Option<&Config>) -> (r: Result<
    (Config, bool),
    Failure,
>)
    ensures
        settled_result(r) == settled(form@, opt_config(old)),
{
    let app_password = merge_password(form.new_password.as_str(), stored_password(old, form));
    if char_count(app_password.as_str()) == 0 {
        return Err(
            Failure::new("an app password is required when the CalDAV account changes"),
        );
    }
    let changed = target_changed(old, form.base_url.as_str(), &form.calendar_href);
    let active_list = match &form.active_list {
        Some(l) => l.clone(),
        None => match &form.calendar_href {
            Some(h) => h.clone(),
            None => LOCAL_LIST_ID.to_owned(),
        },
    };
    let cfg = Config {
        active_list: Some(active_list),
        caldav: CaldavConfig {
            provider: form.provider.clone(),
            base_url: form.base_url.clone(),
            username: form.username.clone(),
            app_password,
            calendar_href: copy_opt(&form.calendar_href),
            calendar: copy_opt(&form.calendar),
        },
    };
    Ok((cfg, changed))
}

/// The account to try out, before anything is stored.
pub open spec fn trial(f: AccountFormV, old: Option<ConfigV>) -> Result<CaldavConfigV, FailureV> {
    let password = merged_password(f.new_password, known_password(old, f));
    if password.len() == 0 {
        Err(plain("enter an app password for this CalDAV account"@))
    } else {
        Ok(
            CaldavConfigV {
                provider: f.provider,
                base_url: f.base_url,
                username: f.username,
                app_password: password,
                calendar_href: None,
                calendar: None,
            },
        )
    }
}

pub open spec fn trial_result(r: Result<CaldavConfig, Failure>) -> Result<CaldavConfigV, FailureV> {
    match r {
        Ok(c) => Ok(c@),
        Err(e) => Err(e@),
    }
}

/// Works out the account to try out.
pub fn discover_with_inner(form: &AccountForm, old: Option<&Config>) -> (r: Result<
    CaldavConfig,
    Failure,
>)
    ensures
        trial_result(r) == trial(form@, opt_config(old)),
{
    let app_password = merge_password(form.new_password.as_str(), stored_password(old, form));
    if char_count(app_password.as_str()) == 0 {
        return Err(Failure::new("enter an app password for this CalDAV account"));
    }
    Ok(
        CaldavConfig {
            provider: form.provider.clone(),
            base_url: form.base_url.clone(),
            username: form.username.clone(),
            app_password,
            calendar_href: None,
            calendar: None,
        },
    )
}

/// What to tell the user of a failed search for task lists.
pub open spec fn discover_message(msg: Seq<char>) -> Seq<char> {
    let low = ascii_lower(msg);
    if has_sub(low, "no address associated with hostname"@) || has_sub(
        low,
        "failed to lookup address information"@,
    ) || has_sub(low, "dns"@) {
        "Could not resolve the server hostname. Check the Server URL. Details: "@ + msg
    } else if has_sub(low, "parsing server url"@) || has_sub(low, "parsing base_url"@) {
        "Server URL is not valid. Use a bare URL like https://nextcloud.example.com. Details: "@
            + msg
    } else if has_sub(low, "401"@) || has_sub(low, "403"@) {
        "The CalDAV server rejected the username or app password. Details: "@ + msg
    } else if has_sub(low, "timed out"@) || has_sub(low, "timeout"@) {
        "DAV-DISCOVERY-TIMEOUT: the CalDAV discovery request timed out. Details: "@ + msg
    } else {
        msg
    }
}

/// Explains a failed search for task lists.
pub fn format_discover_error(err: &Failure) -> (s: String)
    ensures
        s@ == discover_message(err@.message),
{
    let msg = err.message.as_str();
    let lower = to_ascii_lower(msg);
    let low = lower.as_str();
    let mut s = if contains(low, "no address associated with hostname") || contains(
        low,
        "failed to lookup address information",
    ) || contains(low, "dns") {
        "Could not resolve the server hostname. Check the Server URL. Details: ".to_owned()
    } else if contains(low, "parsing server url") || contains(low, "parsing base_url") {
        "Server URL is not valid. Use a bare URL like https://nextcloud.example.com. Details: ".to_owned()
    } else if contains(low, "401") || contains(low, "403") {
        "The CalDAV server rejected the username or app password. Details: ".to_owned()
    } else if contains(low, "timed out") || contains(low, "timeout") {
        "DAV-DISCOVERY-TIMEOUT: the CalDAV discovery request timed out. Details: ".to_owned()
    } else {
        return msg.to_owned();
    };
    s.append(msg);
    s
}

// --- What the form shows ---

/// The settings as the form shows them. The password is not among them, only whether
/// there is one.
#[derive(Debug)]
pub enum FormAnswer {
    /// Nothing is stored yet.
    Blank,
    Stored {
        provider: String,
        base_url: String,
        username: String,
        calendar: Option<String>,
        calendar_href: Option<String>,
        active_list: Option<String>,
        has_password: bool,
    },
}

#[verifier::ext_equal]
pub enum FormAnswerV {
    Blank,
    Stored {
        provider: Seq<char>,
        base_url: Seq<char>,
        username: Seq<char>,
        calendar: Option<Seq<char>>,
        calendar_href: Option<Seq<char>>,
        active_list: Option<Seq<char>>,
        has_password: bool,
    },
}

impl View for FormAnswer {
    type V = FormAnswerV;

    open spec fn view(&self) -> FormAnswerV {
        match self {
            FormAnswer::Blank => FormAnswerV::Blank,
            FormAnswer::Stored {
                provider,
                base_url,
                username,
                calendar,
                calendar_href,
                active_list,
                has_password,
            } => FormAnswerV::Stored {
                provider: provider@,
                base_url: base_url@,
                username: username@,
                calendar: opt_text(*calendar),
                calendar_href: opt_text(*calendar_href),
                active_list: opt_text(*active_list),
                has_password: *has_password,
            },
        }
    }
}

/// What the form shows of the settings.
pub open spec fn form_view(cfg: Option<ConfigV>) -> FormAnswerV {
    match cfg {
        None => FormAnswerV::Blank,
        Some(c) => FormAnswerV::Stored {
            provider: c.caldav.provider,
            base_url: c.caldav.base_url,
            username: c.caldav.username,
            calendar: c.caldav.calendar,
            calendar_href: c.caldav.calendar_href,
            active_list: selected_list(c),
            has_password: c.caldav.app_password.len() > 0,
        },
    }
}

/// Composes what the form shows.
pub fn config_for_form(cfg: Option<&Config>) -> (r: FormAnswer)
    ensures
        r@ == form_view(opt_config(cfg)),
{
    match cfg {
        None => FormAnswer::Blank,
        Some(c) => FormAnswer::Stored {
            provider: c.caldav.provider.clone(),
            base_url: c.caldav.base_url.clone(),
            username: c.caldav.username.clone(),
            calendar: copy_opt(&c.caldav.calendar),
            calendar_href: copy_opt(&c.caldav.calendar_href),
            active_list: own_opt(active_list(c)),
            has_password: char_count(c.caldav.app_password.as_str()) > 0,
        },
    }
}

/// The password never reaches the form: of two settings that differ in nothing but which
/// password is stored, the form shows the same.
pub proof fn law_form_hides_password(a: ConfigV, b: ConfigV)
    requires
        a.active_list == b.active_list,
        a.caldav == (CaldavConfigV { app_password: a.caldav.app_password, ..b.caldav }),
        a.caldav.app_password.len() > 0,
        b.caldav.app_password.len() > 0,
    ensures
        form_view(Some(a)) == form_view(Some(b)),
{
}

} // verus!
