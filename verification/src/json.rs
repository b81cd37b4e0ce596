//! JSON as the library reads and writes it: the top level of a document, and
//! objects with one string member.
use vstd::prelude::*;
use crate::text::{opt_text, str_eq};

verus! {

/// The top level of a JSON document. A document that is no object has no
/// members; the value of a member is given where it is a string.
#[derive(Debug)]
pub struct JsonTop {
    pub is_object: bool,
    pub members: Vec<(String, Option<String>)>,
}

#[verifier::ext_equal]
pub struct JsonTopV {
    pub is_object: bool,
    pub members: Seq<(Seq<char>, Option<Seq<char>>)>,
}

pub open spec fn member_views(m: Seq<(String, Option<String>)>) -> Seq<
    (Seq<char>, Option<Seq<char>>),
> {
    m.map_values(|p: (String, Option<String>)| (p.0@, opt_text(p.1)))
}

impl View for JsonTop {
    type V = JsonTopV;

    open spec fn view(&self) -> JsonTopV {
        JsonTopV { is_object: self.is_object, members: member_views(self.members@) }
    }
}

/// The first member named `key`, from `i` on: its string where it is one.
pub open spec fn member_from(
    members: Seq<(Seq<char>, Option<Seq<char>>)>,
    key: Seq<char>,
    i: nat,
) -> Option<Option<Seq<char>>>
    decreases members.len() - i,
{
    if i >= members.len() {
        None
    } else if members[i as int].0 == key {
        Some(members[i as int].1)
    } else {
        member_from(members, key, i + 1)
    }
}

impl JsonTopV {
    /// The member named `key`, `Some(None)` where it is not a string.
    pub open spec fn member(self, key: Seq<char>) -> Option<Option<Seq<char>>> {
        member_from(self.members, key, 0)
    }

    /// The string member named `key`.
    pub open spec fn string(self, key: Seq<char>) -> Option<Seq<char>> {
        match self.member(key) {
            Some(v) => v,
            None => None,
        }
    }

    /// The string member named `key`, or `default`.
    pub open spec fn string_or(self, key: Seq<char>, default: Seq<char>) -> Seq<char> {
        match self.string(key) {
            Some(s) => s,
            None => default,
        }
    }
}

impl JsonTop {
    /// The index of the member named `key`.
    fn find(&self, key: &str) -> (r: Option<usize>)
        ensures
            match r {
                Some(i) => i < self.members@.len() && self@.member(key@) == Some(
                    opt_text(self.members@[i as int].1),
                ),
                None => self@.member(key@) is None,
            },
    {
        let mut i: usize = 0;
        while i < self.members.len()
            invariant
                i <= self.members@.len(),
                self@.member(key@) == member_from(self@.members, key@, i as nat),
            decreases self.members@.len() - i,
        {
            assert(self@.members[i as int] == (
                self.members@[i as int].0@,
                opt_text(self.members@[i as int].1),
            ));
            if str_eq(self.members[i].0.as_str(), key) {
                return Some(i);
            }
            i += 1;
        }
        None
    }

    /// Is there a member named `key`?
    pub fn has(&self, key: &str) -> (r: bool)
        ensures
            r == (self@.member(key@) is Some),
    {
        self.find(key).is_some()
    }

    /// The string member named `key`.
    pub fn str_field(&self, key: &str) -> (r: Option<String>)
        ensures
            opt_text(r) == self@.string(key@),
    {
        match self.find(key) {
            Some(i) => match &self.members[i].1 {
                Some(s) => Some(s.clone()),
                None => None,
            },
            None => None,
        }
    }

    /// The string member named `key`, or `default`.
    pub fn str_field_or(&self, key: &str, default: &str) -> (r: String)
        ensures
            r@ == self@.string_or(key@, default@),
    {
        match self.str_field(key) {
            Some(s) => s,
            None => default.to_owned(),
        }
    }
}

/// What `serde_json::from_str::<serde_json::Value>` makes of a text, seen at its
/// top level, or the words of its error.
pub uninterp spec fn json_top(text: Seq<char>) -> Result<JsonTopV, Seq<char>>;

/// The compact text of a `serde_json::Value` that is the object with these string
/// members.
pub uninterp spec fn json_object(members: Seq<(Seq<char>, Seq<char>)>) -> Seq<char>;

/// No two members have the same name.
pub open spec fn distinct_names(members: Seq<(Seq<char>, Seq<char>)>) -> bool {
    forall|a: int, b: int|
        0 <= a < b < members.len() ==> (#[trigger] members[a]).0 != (#[trigger] members[b]).0
}

/// A successfully read object that has these string members and no other.
pub open spec fn has_just(
    top: Result<JsonTopV, Seq<char>>,
    members: Seq<(Seq<char>, Seq<char>)>,
) -> bool {
    match top {
        Ok(t) => {
            &&& t.is_object
            &&& forall|i: int|
                0 <= i < members.len() ==> t.member((#[trigger] members[i]).0) == Some(
                    Some(members[i].1),
                )
            &&& forall|key: Seq<char>|
                (forall|i: int| 0 <= i < members.len() ==> (#[trigger] members[i]).0 != key)
                    ==> #[trigger] t.member(key) is None
        },
        Err(_) => false,
    }
}

pub open spec fn text_members(v: Seq<(String, String)>) -> Seq<(Seq<char>, Seq<char>)> {
    v.map_values(|m: (String, String)| (m.0@, m.1@))
}

pub open spec fn json_result(r: Result<JsonTop, String>) -> Result<JsonTopV, Seq<char>> {
    match r {
        Ok(t) => Ok(t@),
        Err(e) => Err(e@),
    }
}

/// `serde_json::from_str` into a `serde_json::Value`, whose top level is handed
/// out: the members of an object with their strings, nothing of anything else.
#[verifier::external_body]
pub(crate) fn read_json(text: &str) -> (r: Result<JsonTop, String>)
    ensures
        json_result(r) == json_top(text@),
{
    match serde_json::from_str::<serde_json::Value>(text) {
        Ok(serde_json::Value::Object(map)) => {
            let string = |v: serde_json::Value| v.as_str().map(str::to_owned);
            let members = map.into_iter().map(|(k, v)| (k, string(v))).collect();
            Ok(JsonTop { is_object: true, members })
        },
        Ok(_) => Ok(JsonTop { is_object: false, members: Vec::new() }),
        Err(e) => Err(e.to_string()),
    }
}

/// `to_string` of a `serde_json::Value`, its compact text, on an object with string
/// members of different names. `serde_json::from_str` gives back those members and no
/// other.
#[verifier::external_body]
pub(crate) fn write_json_object(members: Vec<(String, String)>) -> (r: String)
    requires
        distinct_names(text_members(members@)),
    ensures
        r@ == json_object(text_members(members@)),
        has_just(json_top(r@), text_members(members@)),
{
    let string = |v: String| serde_json::Value::String(v);
    let map = members.into_iter().map(|(k, v)| (k, string(v))).collect();
    serde_json::Value::Object(map).to_string()
}

} // verus!
