//! The hand-over of captured to-dos: which files of the intake directory are meant,
//! and what becomes of each.
use vstd::prelude::*;
use crate::clock::{Moment, MomentV};
use crate::handlers::{ingest_item, taken_in, IntakeItem, IntakeItemV};
use crate::store::{Store, StoreV};
use crate::text::{char_count, ends_with, finishes_with};

verus! {

/// A file name with the extension `json`. A name that is nothing but the dot and
/// the extension has none.
pub open spec fn handed_over(name: Seq<char>) -> bool {
    finishes_with(name, ".json"@) && name.len() > 5
}

/// Is the file meant for the intake?
pub fn is_intake_file(name: &str) -> (r: bool)
    ensures
        r == handed_over(name@),
{
    ends_with(name, ".json") && char_count(name) > 5
}

/// What becomes of a file.
#[derive(Debug)]
pub enum Verdict {
    /// It stays where it is, for the reason given.
    Left(String),
    /// It is a task now: the file is to be removed, and counts.
    Taken,
}

pub enum VerdictV {
    Left(Seq<char>),
    Taken,
}

impl View for Verdict {
    type V = VerdictV;

    open spec fn view(&self) -> VerdictV {
        match self {
            Verdict::Left(why) => VerdictV::Left(why@),
            Verdict::Taken => VerdictV::Taken,
        }
    }
}

/// The item that a file holds, or why none could be read.
pub open spec fn item_read(r: Result<IntakeItem, String>) -> Result<IntakeItemV, Seq<char>> {
    match r {
        Ok(i) => Ok(i@),
        Err(why) => Err(why@),
    }
}

/// The tables after a file, and what becomes of it. The tables change only where
/// it is taken.
pub open spec fn file_taken(
    s: StoreV,
    cal: Seq<char>,
    read: Result<IntakeItemV, Seq<char>>,
    uid: Seq<char>,
    m: MomentV,
) -> (StoreV, VerdictV) {
    match read {
        Err(why) => (s, VerdictV::Left(why)),
        Ok(item) => match taken_in(s, cal, item, uid, m) {
            Err(e) => (s, VerdictV::Left("enqueue failed: "@ + e.message)),
            Ok(done) => if done.1 {
                (done.0, VerdictV::Taken)
            } else {
                (s, VerdictV::Left("empty summary"@))
            },
        },
    }
}

/// Takes in the item of a file under the identifier `uid`.
pub fn take_in(
    store: &mut Store,
    cal_href: &str,
    read: Result<IntakeItem, String>,
    uid: &str,
    m: &Moment,
) -> (v: Verdict)
    requires
        old(store)@.wf(),
    ensures
        final(store)@.wf(),
        (final(store)@, v@) == file_taken(old(store)@, cal_href@, item_read(read), uid@, m@),
{
    match read {
        Err(why) => Verdict::Left(why),
        Ok(item) => match ingest_item(store, cal_href, &item, uid, m) {
            Ok(true) => Verdict::Taken,
            Ok(false) => Verdict::Left("empty summary".to_owned()),
            Err(e) => {
                let mut why = "enqueue failed: ".to_owned();
                why.append(e.message.as_str());
                Verdict::Left(why)
            },
        },
    }
}

/// A file that stays changes nothing, so it can be tried again.
pub proof fn law_left_file_changes_nothing(
    s: StoreV,
    cal: Seq<char>,
    read: Result<IntakeItemV, Seq<char>>,
    uid: Seq<char>,
    m: MomentV,
)
    ensures
        file_taken(s, cal, read, uid, m).1 is Left ==> file_taken(s, cal, read, uid, m).0 == s,
{
}

/// A file that is taken adds one row, that of the new task, in front of which
/// nothing changes.
pub proof fn law_taken_file_adds_one_row(
    s: StoreV,
    cal: Seq<char>,
    read: Result<IntakeItemV, Seq<char>>,
    uid: Seq<char>,
    m: MomentV,
)
    ensures
        file_taken(s, cal, read, uid, m).1 is Taken ==> {
            let t = file_taken(s, cal, read, uid, m).0;
            &&& t.tasks.len() == s.tasks.len() + 1
            &&& t.tasks.drop_last() == s.tasks
            &&& t.tasks.last().uid == uid
            &&& t.tasks.last().calendar_href == cal
        },
{
    let t = file_taken(s, cal, read, uid, m).0;
    if file_taken(s, cal, read, uid, m).1 is Taken {
        assert(t.tasks.drop_last() =~= s.tasks);
    }
}

} // verus!
