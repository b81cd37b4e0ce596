//! The account and the chosen list.
use vstd::prelude::*;
use crate::text::{opt_str, opt_text, trim, trimmed};

verus! {

/// The name of the list that lives on the device alone.
pub const LOCAL_LIST_ID: &'static str = "local://default";

/// The settings of the program.
#[derive(Debug)]
pub struct Config {
    /// The list selected on the screen. Older settings have none.
    pub active_list: Option<String>,
    pub caldav: CaldavConfig,
}

/// The account on the server.
#[derive(Debug)]
pub struct CaldavConfig {
    pub provider: String,
    pub base_url: String,
    pub username: String,
    pub app_password: String,
    /// The collection to sync with.
    pub calendar_href: Option<String>,
    /// The name of the collection; it identifies it in older settings.
    pub calendar: Option<String>,
}

pub type NextcloudConfig = CaldavConfig;

#[verifier::ext_equal]
pub struct CaldavConfigV {
    pub provider: Seq<char>,
    pub base_url: Seq<char>,
    pub username: Seq<char>,
    pub app_password: Seq<char>,
    pub calendar_href: Option<Seq<char>>,
    pub calendar: Option<Seq<char>>,
}

#[verifier::ext_equal]
pub struct ConfigV {
    pub active_list: Option<Seq<char>>,
    pub caldav: CaldavConfigV,
}

impl View for CaldavConfig {
    type V = CaldavConfigV;

    open spec fn view(&self) -> CaldavConfigV {
        CaldavConfigV {
            provider: self.provider@,
            base_url: self.base_url@,
            username: self.username@,
            app_password: self.app_password@,
            calendar_href: opt_text(self.calendar_href),
            calendar: opt_text(self.calendar),
        }
    }
}

impl View for Config {
    type V = ConfigV;

    open spec fn view(&self) -> ConfigV {
        ConfigV { active_list: opt_text(self.active_list), caldav: self.caldav@ }
    }
}

/// An account that is not set up.
pub open spec fn no_account() -> CaldavConfigV {
    CaldavConfigV {
        provider: "generic"@,
        base_url: ""@,
        username: ""@,
        app_password: ""@,
        calendar_href: None,
        calendar: None,
    }
}

impl Default for CaldavConfig {
    fn default() -> (c: CaldavConfig)
        ensures
            c@ == no_account(),
    {
        CaldavConfig {
            provider: "generic".to_owned(),
            base_url: "".to_owned(),
            username: "".to_owned(),
            app_password: "".to_owned(),
            calendar_href: None,
            calendar: None,
        }
    }
}

impl Default for Config {
    fn default() -> (c: Config)
        ensures
            c@ == (ConfigV { active_list: Some(LOCAL_LIST_ID@), caldav: no_account() }),
    {
        Config {
            active_list: Some(LOCAL_LIST_ID.to_owned()),
            caldav: CaldavConfig::default(),
        }
    }
}

/// The password to keep: a blank one keeps what is there.
pub open spec fn merged_password(new_password: Seq<char>, existing: Option<Seq<char>>) -> Seq<
    char,
> {
    if new_password.len() == 0 {
        match existing {
            Some(p) => p,
            None => ""@,
        }
    } else {
        new_password
    }
}

/// Chooses the password to keep. The screen never sees the secret, so an
/// unchanged one comes back blank.
pub fn merge_password(new_password: &str, existing: Option<&str>) -> (r: String)
    ensures
        r@ == merged_password(new_password@, opt_str(existing)),
{
    if crate::text::char_count(new_password) == 0 {
        match existing {
            Some(p) => p.to_owned(),
            None => "".to_owned(),
        }
    } else {
        new_password.to_owned()
    }
}

/// The selected list, or else the collection that is synced.
pub open spec fn selected_list(c: ConfigV) -> Option<Seq<char>> {
    match c.active_list {
        Some(l) => Some(l),
        None => c.caldav.calendar_href,
    }
}

/// The list that the user works on.
pub fn active_list(cfg: &Config) -> (r: Option<&str>)
    ensures
        opt_str(r) == selected_list(cfg@),
{
    match &cfg.active_list {
        Some(l) => Some(l.as_str()),
        None => match &cfg.caldav.calendar_href {
            Some(h) => Some(h.as_str()),
            None => None,
        },
    }
}

/// Is an account set up? It takes a server, a user and a password.
pub open spec fn account_set_up(c: ConfigV) -> bool {
    trimmed(c.caldav.base_url).len() > 0 && trimmed(c.caldav.username).len() > 0
        && c.caldav.app_password.len() > 0
}

/// Is there a server to sync with?
pub fn has_remote(cfg: &Config) -> (r: bool)
    ensures
        r == account_set_up(cfg@),
{
    crate::text::char_count(trim(cfg.caldav.base_url.as_str()).as_str()) > 0
        && crate::text::char_count(trim(cfg.caldav.username.as_str()).as_str()) > 0
        && crate::text::char_count(cfg.caldav.app_password.as_str()) > 0
}

} // verus!
