//! URLs, held as their text. What a URL is and how one resolves against another
//! is the url crate's business.
use vstd::prelude::*;
use crate::failure::{plain, Failure, FailureV};
use crate::text::{char_bytes, char_count, chars_of, ends_with, finishes_with, opt_text};

verus! {

/// A parsed URL: its normal form and the parts that the library looks at.
#[derive(Debug)]
pub struct UrlParts {
    pub text: String,
    pub scheme: String,
    pub host: Option<String>,
    pub path: String,
}

#[verifier::ext_equal]
pub struct UrlPartsV {
    pub text: Seq<char>,
    pub scheme: Seq<char>,
    pub host: Option<Seq<char>>,
    pub path: Seq<char>,
}

impl View for UrlParts {
    type V = UrlPartsV;

    open spec fn view(&self) -> UrlPartsV {
        UrlPartsV {
            text: self.text@,
            scheme: self.scheme@,
            host: opt_text(self.host),
            path: self.path@,
        }
    }
}

pub open spec fn parts_result(r: Result<UrlParts, String>) -> Result<UrlPartsV, Seq<char>> {
    match r {
        Ok(p) => Ok(p@),
        Err(e) => Err(e@),
    }
}

pub open spec fn text_result(r: Result<String, String>) -> Result<Seq<char>, Seq<char>> {
    match r {
        Ok(s) => Ok(s@),
        Err(e) => Err(e@),
    }
}

/// What `url::Url::parse` makes of a text, or the words of its error.
pub uninterp spec fn parsed_url(text: Seq<char>) -> Result<UrlPartsV, Seq<char>>;

/// What `url::Url::join` makes of a reference against a base, or the words of the
/// error. A base that does not parse fails with its own error.
pub uninterp spec fn joined_url(base: Seq<char>, reference: Seq<char>) -> Result<
    Seq<char>,
    Seq<char>,
>;

/// A URL after `url::Url::set_query` with nothing; none where it does not parse.
pub uninterp spec fn without_query(url: Seq<char>) -> Option<Seq<char>>;

/// A URL after `url::Url::set_fragment` with nothing; none where it does not parse.
pub uninterp spec fn without_fragment(url: Seq<char>) -> Option<Seq<char>>;

/// A URL after `url::Url::set_path`; none where it does not parse.
pub uninterp spec fn with_path(url: Seq<char>, path: Seq<char>) -> Option<Seq<char>>;

/// `url::Url::parse`, with the URL's text and what `scheme`, `host_str` and `path`
/// say of it.
#[verifier::external_body]
pub(crate) fn read_url(text: &str) -> (r: Result<UrlParts, String>)
    ensures
        parts_result(r) == parsed_url(text@),
{
    match url::Url::parse(text) {
        Ok(u) => Ok(
            UrlParts {
                text: u.as_str().to_owned(),
                scheme: u.scheme().to_owned(),
                host: u.host_str().map(str::to_owned),
                path: u.path().to_owned(),
            },
        ),
        Err(e) => Err(e.to_string()),
    }
}

/// `url::Url::join`, on the text of the base.
#[verifier::external_body]
pub(crate) fn join_url(base: &str, reference: &str) -> (r: Result<String, String>)
    ensures
        text_result(r) == joined_url(base@, reference@),
{
    match url::Url::parse(base).and_then(|b| b.join(reference)) {
        Ok(u) => Ok(u.as_str().to_owned()),
        Err(e) => Err(e.to_string()),
    }
}

/// `url::Url::set_query` with nothing, on the text of the URL.
#[verifier::external_body]
pub(crate) fn drop_query(url: &str) -> (r: Option<String>)
    ensures
        opt_text(r) == without_query(url@),
{
    let mut u = url::Url::parse(url).ok()?;
    u.set_query(None);
    Some(u.as_str().to_owned())
}

/// `url::Url::set_fragment` with nothing, on the text of the URL.
#[verifier::external_body]
pub(crate) fn drop_fragment(url: &str) -> (r: Option<String>)
    ensures
        opt_text(r) == without_fragment(url@),
{
    let mut u = url::Url::parse(url).ok()?;
    u.set_fragment(None);
    Some(u.as_str().to_owned())
}

/// The bytes that a character takes in the path of a URL: a control character, a character
/// that a path may not hold and each byte of one outside ASCII are escaped in three.
pub open spec fn path_bytes_of(c: char) -> nat {
    if (c as u32) < 0x20 || (c as u32) == 0x7f || c == ' ' || c == '"' || c == '<' || c == '>' || c
        == '`' || c == '#' || c == '?' || c == '{' || c == '}' {
        3
    } else {
        let n = char_bytes(c);
        if n == 1 {
            1
        } else {
            3 * n
        }
    }
}

/// The bytes that a path takes in a URL, at most: it may lose some, where it steps back.
pub open spec fn path_bytes(s: Seq<char>) -> nat
    decreases s.len(),
{
    if s.len() == 0 {
        0
    } else {
        path_bytes(s.drop_last()) + path_bytes_of(s.last())
    }
}

/// The longest URL, in bytes.
pub const URL_LIMIT: u128 = 0xffff_ffff;

/// What a path may gain besides: a slash in front, or the escape of one.
pub const PATH_MARGIN: u128 = 3;

/// A URL with another path is no longer than the longest one.
pub open spec fn path_fits(url: Seq<char>, path: Seq<char>) -> bool {
    match parsed_url(url) {
        Ok(p) => p.text.len() - p.path.len() + path_bytes(path) + PATH_MARGIN <= URL_LIMIT,
        Err(_) => true,
    }
}

/// Counts the bytes that a path takes in a URL.
fn count_path_bytes(s: &str) -> (n: u128)
    ensures
        n == path_bytes(s@),
        n <= 12 * usize::MAX,
{
    let v = chars_of(s);
    let mut n: u128 = 0;
    let mut i: usize = 0;
    while i < v.len()
        invariant
            i <= v@.len(),
            v@ == s@,
            n <= 12 * i,
            n == path_bytes(v@.take(i as int)),
        decreases v@.len() - i,
    {
        let c = v[i];
        let code = c as u32;
        proof {
            assert(v@.take(i + 1).drop_last() =~= v@.take(i as int));
        }
        let width: u128 = if code < 0x20 || code == 0x7f || c == ' ' || c == '"' || c == '<' || c
            == '>' || c == '`' || c == '#' || c == '?' || c == '{' || c == '}' {
            3
        } else if code < 0x80 {
            1
        } else if code < 0x800 {
            6
        } else if code < 0x1_0000 {
            9
        } else {
            12
        };
        n += width;
        i += 1;
    }
    assert(v@.take(i as int) =~= s@);
    n
}

/// Is a URL with another path no longer than the longest one?
pub(crate) fn fits_path(url: &str, path: &str) -> (b: bool)
    ensures
        b == path_fits(url@, path@),
{
    match read_url(url) {
        Ok(p) => {
            let whole: u128 = char_count(p.text.as_str()) as u128;
            let old: u128 = char_count(p.path.as_str()) as u128;
            let new = count_path_bytes(path);
            whole + new + PATH_MARGIN <= URL_LIMIT + old
        },
        Err(_) => true,
    }
}

/// `url::Url::set_path`, on the text of the URL. It panics where the URL gets longer than
/// four gigabytes, which the bound leaves out: a URL is ASCII, and all of it but the old path
/// stays.
#[verifier::external_body]
pub(crate) fn replace_path(url: &str, path: &str) -> (r: Option<String>)
    requires
        path_fits(url@, path@),
    ensures
        opt_text(r) == with_path(url@, path@),
{
    let mut u = url::Url::parse(url).ok()?;
    u.set_path(path);
    Some(u.as_str().to_owned())
}

/// The URL of a task: its href where that is a URL by itself, else the href
/// resolved against the calendar's URL.
pub open spec fn task_url(calendar_url: Seq<char>, href: Seq<char>) -> Result<
    Seq<char>,
    Seq<char>,
> {
    match parsed_url(href) {
        Ok(p) => Ok(p.text),
        Err(_) => joined_url(calendar_url, href),
    }
}

pub open spec fn url_result(r: Result<String, Failure>) -> Result<Seq<char>, FailureV> {
    match r {
        Ok(s) => Ok(s@),
        Err(e) => Err(e@),
    }
}

pub open spec fn plainly(r: Result<Seq<char>, Seq<char>>) -> Result<Seq<char>, FailureV> {
    match r {
        Ok(s) => Ok(s),
        Err(e) => Err(plain(e)),
    }
}

/// Resolves the href of a cached task.
pub fn build_task_url(calendar_url: &str, href: &str) -> (r: Result<String, Failure>)
    ensures
        url_result(r) == plainly(task_url(calendar_url@, href@)),
{
    match read_url(href) {
        Ok(p) => Ok(p.text),
        Err(_) => match join_url(calendar_url, href) {
            Ok(u) => Ok(u),
            Err(e) => Err(Failure::from_message(e)),
        },
    }
}

/// The URL of a collection with a slash at the end of its path, so that a name
/// resolved against it is added and does not replace the last segment.
pub open spec fn collection_url(calendar_url: Seq<char>) -> Result<Seq<char>, Seq<char>> {
    match parsed_url(calendar_url) {
        Err(e) => Err(e),
        Ok(p) => if finishes_with(p.path, "/"@) {
            Ok(p.text)
        } else if !path_fits(p.text, p.path + "/"@) {
            Err("URLs more than 4 GB are not supported"@)
        } else {
            match with_path(p.text, p.path + "/"@) {
                Some(u) => Ok(u),
                None => Err("URLs more than 4 GB are not supported"@),
            }
        },
    }
}

/// The URL of a new task in a collection.
pub open spec fn create_url(calendar_url: Seq<char>, uid: Seq<char>) -> Result<
    Seq<char>,
    Seq<char>,
> {
    match collection_url(calendar_url) {
        Ok(base) => joined_url(base, uid + ".ics"@),
        Err(e) => Err(e),
    }
}

fn collection_base(calendar_url: &str) -> (r: Result<String, String>)
    ensures
        text_result(r) == collection_url(calendar_url@),
{
    match read_url(calendar_url) {
        Err(e) => Err(e),
        Ok(p) => {
            if ends_with(p.path.as_str(), "/") {
                return Ok(p.text);
            }
            let mut path = p.path.clone();
            path.append("/");
            if !fits_path(p.text.as_str(), path.as_str()) {
                return Err("URLs more than 4 GB are not supported".to_owned());
            }
            match replace_path(p.text.as_str(), path.as_str()) {
                Some(u) => Ok(u),
                None => Err("URLs more than 4 GB are not supported".to_owned()),
            }
        },
    }
}

/// Builds the URL of a new task.
pub fn build_create_url(calendar_url: &str, uid: &str) -> (r: Result<String, Failure>)
    ensures
        url_result(r) == plainly(create_url(calendar_url@, uid@)),
{
    match collection_base(calendar_url) {
        Ok(base) => {
            let mut name = uid.to_owned();
            name.append(".ics");
            match join_url(base.as_str(), name.as_str()) {
                Ok(u) => Ok(u),
                Err(e) => Err(Failure::from_message(e)),
            }
        },
        Err(e) => Err(Failure::from_message(e)),
    }
}

} // verus!
