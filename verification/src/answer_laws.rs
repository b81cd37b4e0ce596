//! What holds of the reading of a multistatus answer, for every document. A document is
//! spoken of by its nodes alone: the tag, the parent, the text and the attributes of each.
use vstd::prelude::*;
use crate::failure::FailureV;
use crate::ical::crlf;
use crate::multistatus::{
    calendar_at, calendars_among, calendars_in, deleted_among, delta_in, delta_of, first_property,
    good_prop, has_child, holds_todos, href_below, href_property, is_calendar, is_property,
    last_text, names_vtodo, prop_holds_todos, prop_is_calendar, prop_name, propstat_href,
    records_among, reports_deleted, resolved, resource_records, response_href, response_name,
    response_property, response_text, CalendarV, SyncDeltaV, TaskRecordV,
};
use crate::seqs::{lemma_find, lemma_find_is};
use crate::task::{tasks_in, TaskV};
use crate::text::{has_sub, stands_at, trimmed};
use crate::weburl::joined_url;
use crate::xml::{attribute_from, child, child_of, child_text, parsed_xml, tagged, within, XmlNodeV};

verus! {

// --- Elements ---

/// The node `i` is an element `tag` right below the node `a`.
pub open spec fn stands_under(nodes: Seq<XmlNodeV>, i: int, a: int, tag: Seq<char>) -> bool {
    0 <= i < nodes.len() && nodes[i].tag == Some(tag) && (nodes[i].parent matches Some(p) && p == a)
}

/// It is the first such element.
pub open spec fn is_first_under(nodes: Seq<XmlNodeV>, i: int, a: int, tag: Seq<char>) -> bool {
    stands_under(nodes, i, a, tag) && forall|j: int|
        0 <= j < i ==> !(#[trigger] stands_under(nodes, j, a, tag))
}

/// The words `words` stand in the text of the first status below the node `a`.
pub open spec fn status_says(nodes: Seq<XmlNodeV>, a: int, words: Seq<char>) -> bool {
    exists|k: int, i: int| #[trigger]
        is_first_under(nodes, k, a, "status"@) && nodes[k].text is Some && #[trigger] stands_at(
            nodes[k].text->Some_0,
            words,
            i,
        )
}

/// `q` holds the properties of the propstat `p` of the response `r`, which reports
/// success.
pub open spec fn is_reported(nodes: Seq<XmlNodeV>, r: int, p: int, q: int) -> bool {
    stands_under(nodes, p, r, "propstat"@) && status_says(nodes, p, " 200 "@) && is_first_under(
        nodes,
        q,
        p,
        "prop"@,
    )
}

/// The node `v` is a property `tag` with a text, reported by the propstat `p` of the
/// response `r`.
pub open spec fn gives(
    nodes: Seq<XmlNodeV>,
    r: int,
    p: int,
    q: int,
    v: int,
    tag: Seq<char>,
) -> bool {
    is_reported(nodes, r, p, q) && stands_under(nodes, v, q, tag) && nodes[v].text is Some
}

/// `value` is the text of the last property `tag` that the response `r` reports in one of
/// its first `n` nodes, and empty where it reports none.
pub open spec fn reads_among(
    nodes: Seq<XmlNodeV>,
    r: int,
    tag: Seq<char>,
    value: Seq<char>,
    n: int,
) -> bool {
    ||| exists|p: int, q: int, v: int|
        {
            &&& #[trigger] gives(nodes, r, p, q, v, tag)
            &&& p < n
            &&& value == trimmed(nodes[v].text->Some_0)
            &&& forall|p2: int, q2: int, v2: int| #[trigger]
                gives(nodes, r, p2, q2, v2, tag) && p2 < n ==> p2 < p || (p2 == p && v2 <= v)
        }
    ||| value.len() == 0 && forall|p: int, q: int, v: int|
        p < n ==> !(#[trigger] gives(nodes, r, p, q, v, tag))
}

/// `value` is what the response `r` reports as its property `tag`.
pub open spec fn reads(nodes: Seq<XmlNodeV>, r: int, tag: Seq<char>, value: Seq<char>) -> bool {
    reads_among(nodes, r, tag, value, nodes.len() as int)
}

/// `h` is the address in the response `r`.
pub open spec fn is_addressed(nodes: Seq<XmlNodeV>, r: int, h: Seq<char>) -> bool {
    &&& 0 <= r < nodes.len()
    &&& nodes[r].tag == Some("response"@)
    &&& exists|k: int| #[trigger]
        is_first_under(nodes, k, r, "href"@) && nodes[k].text is Some && h == trimmed(
            nodes[k].text->Some_0,
        )
}

/// `href` is where the address `h` leads to from `base`: the address itself where it does
/// not resolve.
pub open spec fn leads_to(base: Seq<char>, h: Seq<char>, href: Seq<char>) -> bool {
    joined_url(base, h) == Ok::<Seq<char>, Seq<char>>(href) || (joined_url(base, h) is Err && href
        == h)
}

proof fn lemma_child(nodes: Seq<XmlNodeV>, a: int, tag: Seq<char>)
    ensures
        0 <= child(nodes, a, tag) <= nodes.len(),
        child(nodes, a, tag) < nodes.len() ==> is_first_under(
            nodes,
            child(nodes, a, tag),
            a,
            tag,
        ),
        forall|i: int| #[trigger]
            stands_under(nodes, i, a, tag) ==> child(nodes, a, tag) <= i,
        forall|i: int| #[trigger]
            is_first_under(nodes, i, a, tag) ==> i == child(nodes, a, tag),
{
    let k = child(nodes, a, tag);
    lemma_find(nodes, child_of(a, tag), 0);
    assert forall|i: int| #[trigger] stands_under(nodes, i, a, tag) implies k <= i by {
        assert(child_of(a, tag)(nodes[i]));
    }
    assert forall|i: int| #[trigger] is_first_under(nodes, i, a, tag) implies i == k by {
        assert(stands_under(nodes, i, a, tag));
        if k < i {
            assert(!stands_under(nodes, k, a, tag));
        }
    }
}

proof fn lemma_status(nodes: Seq<XmlNodeV>, a: int, words: Seq<char>)
    ensures
        (child_text(nodes, a, "status"@) matches Some(t) && has_sub(t, words)) == status_says(
            nodes,
            a,
            words,
        ),
{
    lemma_child(nodes, a, "status"@);
    let k = child(nodes, a, "status"@);
    if k < nodes.len() && nodes[k].text is Some && has_sub(nodes[k].text->Some_0, words) {
        let i = choose|i: int| stands_at(nodes[k].text->Some_0, words, i);
        assert(is_first_under(nodes, k, a, "status"@));
        assert(stands_at(nodes[k].text->Some_0, words, i));
    }
}

proof fn lemma_good_prop(nodes: Seq<XmlNodeV>, r: int, p: int)
    requires
        0 <= p < nodes.len(),
    ensures
        0 <= good_prop(nodes, r, p) <= nodes.len(),
        good_prop(nodes, r, p) < nodes.len() ==> is_reported(nodes, r, p, good_prop(nodes, r, p)),
        forall|q: int| #[trigger] is_reported(nodes, r, p, q) ==> q == good_prop(nodes, r, p),
{
    lemma_status(nodes, p, " 200 "@);
    lemma_child(nodes, p, "prop"@);
    assert(child_of(r, "propstat"@)(nodes[p]) == stands_under(nodes, p, r, "propstat"@));
}

/// The last of the properties `tag` of `prop` with a text.
spec fn is_last_text(
    nodes: Seq<XmlNodeV>,
    prop: int,
    tag: Seq<char>,
    n: int,
    v: int,
) -> bool {
    &&& stands_under(nodes, v, prop, tag)
    &&& v < n
    &&& nodes[v].text is Some
    &&& forall|w: int|
        v < w < n ==> !(#[trigger] stands_under(nodes, w, prop, tag) && nodes[w].text is Some)
}

proof fn lemma_last_text(
    nodes: Seq<XmlNodeV>,
    prop: int,
    tag: Seq<char>,
    before: Seq<char>,
    n: nat,
)
    requires
        n <= nodes.len(),
    ensures
        ({
            let out = last_text(nodes, prop, tag, before, n);
            ||| exists|v: int| #[trigger]
                is_last_text(nodes, prop, tag, n as int, v) && out == trimmed(
                    nodes[v].text->Some_0,
                )
            ||| out == before && forall|w: int|
                w < n ==> !(#[trigger] stands_under(nodes, w, prop, tag) && nodes[w].text is Some)
        }),
    decreases n,
{
    if n > 0 {
        lemma_last_text(nodes, prop, tag, before, (n - 1) as nat);
        let m = n - 1;
        let sofar = last_text(nodes, prop, tag, before, m as nat);
        assert(is_property(nodes, prop, m, tag) == stands_under(nodes, m, prop, tag));
        if stands_under(nodes, m, prop, tag) && nodes[m].text is Some {
            assert(is_last_text(nodes, prop, tag, n as int, m));
        } else if exists|v: int| #[trigger]
            is_last_text(nodes, prop, tag, m, v) && sofar == trimmed(nodes[v].text->Some_0) {
            let v = choose|v: int| #[trigger]
                is_last_text(nodes, prop, tag, m, v) && sofar == trimmed(nodes[v].text->Some_0);
            assert(is_last_text(nodes, prop, tag, n as int, v));
        }
    }
}

proof fn lemma_response_text(nodes: Seq<XmlNodeV>, r: int, tag: Seq<char>, n: nat)
    requires
        n <= nodes.len(),
    ensures
        reads_among(nodes, r, tag, response_text(nodes, r, tag, n), n as int),
    decreases n,
{
    let out = response_text(nodes, r, tag, n);
    if n == 0 {
        reveal_strlit("");
        assert forall|p: int, q: int, v: int| p < 0 implies !(#[trigger] gives(
            nodes,
            r,
            p,
            q,
            v,
            tag,
        )) by {}
    } else {
        let m = n - 1;
        let sofar = response_text(nodes, r, tag, m as nat);
        lemma_response_text(nodes, r, tag, m as nat);
        lemma_good_prop(nodes, r, m);
        let prop = good_prop(nodes, r, m);
        if prop < nodes.len() {
            lemma_last_text(nodes, prop, tag, sofar, nodes.len());
        }
        let len = nodes.len() as int;
        if prop < nodes.len() && exists|v: int| #[trigger]
            is_last_text(nodes, prop, tag, len, v) && out == trimmed(nodes[v].text->Some_0) {
            let v = choose|v: int| #[trigger]
                is_last_text(nodes, prop, tag, len, v) && out == trimmed(nodes[v].text->Some_0);
            assert(gives(nodes, r, m, prop, v, tag));
            assert forall|p2: int, q2: int, v2: int| #[trigger]
                gives(nodes, r, p2, q2, v2, tag) && p2 < n implies p2 < m || (p2 == m && v2
                <= v) by {
                if p2 == m {
                    assert(is_reported(nodes, r, m, q2));
                    assert(stands_under(nodes, v2, prop, tag));
                }
            }
        } else {
            assert(out == sofar);
            assert forall|q2: int, v2: int| !(#[trigger] gives(nodes, r, m, q2, v2, tag)) by {
                if gives(nodes, r, m, q2, v2, tag) {
                    assert(is_reported(nodes, r, m, q2));
                    assert(stands_under(nodes, v2, prop, tag));
                }
            }
            if exists|p: int, q: int, v: int|
                {
                    &&& #[trigger] gives(nodes, r, p, q, v, tag)
                    &&& p < m
                    &&& sofar == trimmed(nodes[v].text->Some_0)
                    &&& forall|p2: int, q2: int, v2: int| #[trigger]
                        gives(nodes, r, p2, q2, v2, tag) && p2 < m ==> p2 < p || (p2 == p && v2
                            <= v)
                } {
                let (p, q, v) = choose|p: int, q: int, v: int|
                    {
                        &&& #[trigger] gives(nodes, r, p, q, v, tag)
                        &&& p < m
                        &&& sofar == trimmed(nodes[v].text->Some_0)
                        &&& forall|p2: int, q2: int, v2: int| #[trigger]
                            gives(nodes, r, p2, q2, v2, tag) && p2 < m ==> p2 < p || (p2 == p
                                && v2 <= v)
                    };
                assert forall|p2: int, q2: int, v2: int| #[trigger]
                    gives(nodes, r, p2, q2, v2, tag) && p2 < n implies p2 < p || (p2 == p && v2
                    <= v) by {
                    if p2 == m {
                        assert(!gives(nodes, r, m, q2, v2, tag));
                    }
                }
                assert(gives(nodes, r, p, q, v, tag));
            } else {
                assert forall|p: int, q: int, v: int| p < n implies !(#[trigger] gives(
                    nodes,
                    r,
                    p,
                    q,
                    v,
                    tag,
                )) by {}
            }
        }
    }
}

/// What a response reports as a property is one text.
proof fn lemma_reads_one(
    nodes: Seq<XmlNodeV>,
    r: int,
    tag: Seq<char>,
    a: Seq<char>,
    b: Seq<char>,
)
    requires
        reads(nodes, r, tag, a),
        reads(nodes, r, tag, b),
    ensures
        a == b,
{
    if exists|p: int, q: int, v: int| #[trigger] gives(nodes, r, p, q, v, tag) {
        let (p, q, v) = choose|p: int, q: int, v: int| #[trigger] gives(nodes, r, p, q, v, tag);
        assert(p < nodes.len());
    } else {
        assert(a =~= b);
    }
}

// --- The changes of a sync ---

/// The response `r` reports a resource that is there: its address leads to `href`, and
/// its own properties are the version `etag` and the body `data`, which holds the tasks
/// `tasks`.
pub open spec fn is_resource(
    nodes: Seq<XmlNodeV>,
    base: Seq<char>,
    r: int,
    href: Seq<char>,
    etag: Seq<char>,
    data: Seq<char>,
    tasks: Seq<TaskV>,
) -> bool {
    &&& exists|h: Seq<char>| #[trigger]
        is_addressed(nodes, r, h) && h.len() > 0 && leads_to(base, h, href)
    &&& !status_says(nodes, r, " 404 "@)
    &&& reads(nodes, r, "getetag"@, etag)
    &&& reads(nodes, r, "calendar-data"@, data)
    &&& crlf(data).len() > 0
    &&& tasks_in(crlf(data)) == Ok::<Seq<TaskV>, crate::failure::FailureV>(tasks)
}

/// `rec` is the record of a task in the resource that the response `r` reports.
pub open spec fn is_record(nodes: Seq<XmlNodeV>, base: Seq<char>, r: int, rec: TaskRecordV) -> bool {
    exists|data: Seq<char>, tasks: Seq<TaskV>| #[trigger]
        is_resource(nodes, base, r, rec.href, rec.etag, data, tasks) && rec.ical_text == crlf(data)
            && tasks.contains(rec.task)
}

/// The records with an origin in the response `r` stand together, from `start` on: one for
/// each task, in order.
pub open spec fn is_block(
    recs: Seq<TaskRecordV>,
    origin: Seq<int>,
    r: int,
    start: int,
    href: Seq<char>,
    etag: Seq<char>,
    data: Seq<char>,
    tasks: Seq<TaskV>,
) -> bool {
    &&& 0 <= start && start + tasks.len() <= recs.len()
    &&& forall|k: int|
        0 <= k < recs.len() ==> ((#[trigger] origin[k] == r) == (start <= k < start + tasks.len()))
    &&& forall|k: int|
        start <= k < start + tasks.len() ==> (#[trigger] recs[k]).href == href && recs[k].etag
            == etag && recs[k].ical_text == crlf(data) && recs[k].task == tasks[k - start]
}

/// The records tell of the responses among the first `n` nodes, each of the one that
/// `origin` gives.
pub open spec fn tells(
    nodes: Seq<XmlNodeV>,
    base: Seq<char>,
    recs: Seq<TaskRecordV>,
    origin: Seq<int>,
    n: int,
) -> bool {
    &&& origin.len() == recs.len()
    &&& forall|k: int|
        0 <= k < recs.len() ==> 0 <= #[trigger] origin[k] < n && is_record(
            nodes,
            base,
            origin[k],
            recs[k],
        )
    &&& forall|i: int, j: int| 0 <= i <= j < recs.len() ==> #[trigger] origin[i] <= #[trigger] origin[j]
    &&& forall|
        r: int,
        href: Seq<char>,
        etag: Seq<char>,
        data: Seq<char>,
        tasks: Seq<TaskV>,
    | #[trigger]
        is_resource(nodes, base, r, href, etag, data, tasks) && r < n ==> exists|start: int|
            is_block(recs, origin, r, start, href, etag, data, tasks)
}

proof fn lemma_response_href(nodes: Seq<XmlNodeV>, r: int)
    requires
        0 <= r < nodes.len(),
        tagged("response"@)(nodes[r]),
    ensures
        response_href(nodes, r) matches Some(h) ==> h.len() > 0 && is_addressed(nodes, r, h),
        forall|h: Seq<char>| #[trigger]
            is_addressed(nodes, r, h) && h.len() > 0 ==> response_href(nodes, r) == Some(h),
{
    lemma_child(nodes, r, "href"@);
}

/// A response reports at most one resource.
proof fn lemma_resource_one(
    nodes: Seq<XmlNodeV>,
    base: Seq<char>,
    r: int,
    href: Seq<char>,
    etag: Seq<char>,
    data: Seq<char>,
    tasks: Seq<TaskV>,
)
    requires
        is_resource(nodes, base, r, href, etag, data, tasks),
    ensures
        0 <= r < nodes.len(),
        tagged("response"@)(nodes[r]),
        !reports_deleted(nodes, r),
        response_href(nodes, r) matches Some(h) && resolved(base, h) == href,
        response_text(nodes, r, "getetag"@, nodes.len()) == etag,
        response_text(nodes, r, "calendar-data"@, nodes.len()) == data,
{
    let h = choose|h: Seq<char>| #[trigger]
        is_addressed(nodes, r, h) && h.len() > 0 && leads_to(base, h, href);
    lemma_response_href(nodes, r);
    lemma_status(nodes, r, " 404 "@);
    lemma_response_text(nodes, r, "getetag"@, nodes.len());
    lemma_response_text(nodes, r, "calendar-data"@, nodes.len());
    lemma_reads_one(
        nodes,
        r,
        "getetag"@,
        etag,
        response_text(nodes, r, "getetag"@, nodes.len()),
    );
    lemma_reads_one(
        nodes,
        r,
        "calendar-data"@,
        data,
        response_text(nodes, r, "calendar-data"@, nodes.len()),
    );
}

proof fn lemma_records(nodes: Seq<XmlNodeV>, base: Seq<char>, n: nat) -> (origin: Seq<int>)
    requires
        n <= nodes.len(),
    ensures
        tells(nodes, base, records_among(nodes, base, n), origin, n as int),
    decreases n,
{
    if n == 0 {
        let none = Seq::<int>::empty();
        assert forall|
            r: int,
            href: Seq<char>,
            etag: Seq<char>,
            data: Seq<char>,
            tasks: Seq<TaskV>,
        | #[trigger]
            is_resource(nodes, base, r, href, etag, data, tasks) && r < 0 implies exists|start: int|
            is_block(records_among(nodes, base, n), none, r, start, href, etag, data, tasks) by {
            lemma_resource_one(nodes, base, r, href, etag, data, tasks);
        }
        none
    } else {
        let m = n - 1;
        let before = records_among(nodes, base, m as nat);
        let sofar = lemma_records(nodes, base, m as nat);
        let recs = records_among(nodes, base, n);
        let more = recs.len() - before.len();
        let origin = sofar + Seq::new(more as nat, |k: int| m);
        let added = tagged("response"@)(nodes[m]) && response_href(nodes, m) is Some
            && !reports_deleted(nodes, m);
        let etag = response_text(nodes, m, "getetag"@, nodes.len());
        let data = response_text(nodes, m, "calendar-data"@, nodes.len());
        if added {
            let h = response_href(nodes, m)->Some_0;
            let href = resolved(base, h);
            assert(recs == before + resource_records(nodes, m, href));
            if crlf(data).len() > 0 && tasks_in(crlf(data)) is Ok {
                let tasks = tasks_in(crlf(data))->Ok_0;
                lemma_response_href(nodes, m);
                lemma_status(nodes, m, " 404 "@);
                lemma_response_text(nodes, m, "getetag"@, nodes.len());
                lemma_response_text(nodes, m, "calendar-data"@, nodes.len());
                assert(is_addressed(nodes, m, h));
                assert(leads_to(base, h, href));
                assert(is_resource(nodes, base, m, href, etag, data, tasks));
                assert forall|k: int| before.len() <= k < recs.len() implies is_record(
                    nodes,
                    base,
                    m,
                    #[trigger] recs[k],
                ) by {
                    assert(recs[k].task == tasks[k - before.len()]);
                    assert(is_resource(nodes, base, m, recs[k].href, recs[k].etag, data, tasks));
                }
            }
        } else {
            assert(recs == before);
        }
        assert forall|k: int| 0 <= k < recs.len() implies 0 <= #[trigger] origin[k] < n
            && is_record(nodes, base, origin[k], recs[k]) by {
            if k < before.len() {
                assert(origin[k] == sofar[k]);
                assert(recs[k] == before[k]);
            }
        }
        assert forall|
            r: int,
            href: Seq<char>,
            etag: Seq<char>,
            data: Seq<char>,
            tasks: Seq<TaskV>,
        | #[trigger]
            is_resource(nodes, base, r, href, etag, data, tasks) && r < n implies exists|start: int|
            is_block(recs, origin, r, start, href, etag, data, tasks) by {
            lemma_resource_one(nodes, base, r, href, etag, data, tasks);
            if r < m {
                let start = choose|start: int|
                    is_block(before, sofar, r, start, href, etag, data, tasks);
                assert forall|k: int| 0 <= k < recs.len() implies ((#[trigger] origin[k] == r) == (
                start <= k < start + tasks.len())) by {
                    if k < before.len() {
                        assert(origin[k] == sofar[k]);
                    }
                }
                assert forall|k: int| start <= k < start + tasks.len() implies (
                #[trigger] recs[k]).href == href && recs[k].etag == etag && recs[k].ical_text
                    == crlf(data) && recs[k].task == tasks[k - start] by {
                    assert(recs[k] == before[k]);
                }
                assert(is_block(recs, origin, r, start, href, etag, data, tasks));
            } else {
                let start = before.len() as int;
                assert forall|k: int| 0 <= k < recs.len() implies ((#[trigger] origin[k] == r) == (
                start <= k < start + tasks.len())) by {
                    if k < before.len() {
                        assert(origin[k] == sofar[k]);
                    }
                }
                assert(is_block(recs, origin, r, start, href, etag, data, tasks));
            }
        }
        origin
    }
}

/// The records of a sync are told by the responses of the answer, each by one of them: its
/// address, its version and its body all come out of that same response. A response that
/// reports a resource has one record for each task of the body, in order, and the records
/// stand in the order of the responses.
pub proof fn law_records_are_told(nodes: Seq<XmlNodeV>, base: Seq<char>)
    ensures
        exists|origin: Seq<int>|
            tells(
                nodes,
                base,
                delta_of(nodes, base).added_or_updated,
                origin,
                nodes.len() as int,
            ),
{
    let origin = lemma_records(nodes, base, nodes.len());
    assert(tells(
        nodes,
        base,
        delta_of(nodes, base).added_or_updated,
        origin,
        nodes.len() as int,
    ));
}

/// Each record has the version and the body of one response: where that response reports a
/// version, it is the text of a getetag whose parents, a prop and a propstat, end in it.
pub proof fn law_record_has_own_version(nodes: Seq<XmlNodeV>, base: Seq<char>, k: int)
    requires
        0 <= k < delta_of(nodes, base).added_or_updated.len(),
    ensures
        ({
            let rec = delta_of(nodes, base).added_or_updated[k];
            exists|r: int, h: Seq<char>, data: Seq<char>|
                {
                    &&& #[trigger] is_addressed(nodes, r, h) && leads_to(base, h, rec.href)
                    &&& reads(nodes, r, "getetag"@, rec.etag)
                    &&& #[trigger] reads(nodes, r, "calendar-data"@, data) && rec.ical_text == crlf(
                        data,
                    )
                    &&& tasks_in(rec.ical_text) matches Ok(tasks) && tasks.contains(rec.task)
                }
        }),
{
    let origin = lemma_records(nodes, base, nodes.len());
    let rec = delta_of(nodes, base).added_or_updated[k];
    let r = origin[k];
    assert(is_record(nodes, base, r, rec));
    let (data, tasks) = choose|data: Seq<char>, tasks: Seq<TaskV>| #[trigger]
        is_resource(nodes, base, r, rec.href, rec.etag, data, tasks) && rec.ical_text == crlf(data)
            && tasks.contains(rec.task);
    let h = choose|h: Seq<char>| #[trigger]
        is_addressed(nodes, r, h) && h.len() > 0 && leads_to(base, h, rec.href);
    assert(is_addressed(nodes, r, h));
    assert(reads(nodes, r, "calendar-data"@, data));
}

/// Two responses that report different versions of their resources give records with
/// different versions.
pub proof fn law_versions_are_told_apart(
    nodes: Seq<XmlNodeV>,
    base: Seq<char>,
    r1: int,
    href1: Seq<char>,
    etag1: Seq<char>,
    data1: Seq<char>,
    tasks1: Seq<TaskV>,
    r2: int,
    href2: Seq<char>,
    etag2: Seq<char>,
    data2: Seq<char>,
    tasks2: Seq<TaskV>,
)
    requires
        is_resource(nodes, base, r1, href1, etag1, data1, tasks1),
        is_resource(nodes, base, r2, href2, etag2, data2, tasks2),
        etag1 != etag2,
        tasks1.len() > 0,
        tasks2.len() > 0,
    ensures
        ({
            let recs = delta_of(nodes, base).added_or_updated;
            exists|i: int, j: int|
                #![trigger recs[i], recs[j]]
                {
                    &&& 0 <= i < recs.len() && 0 <= j < recs.len()
                    &&& recs[i].href == href1 && recs[i].etag == etag1
                    &&& recs[j].href == href2 && recs[j].etag == etag2
                    &&& recs[i].etag != recs[j].etag
                }
        }),
{
    let origin = lemma_records(nodes, base, nodes.len());
    let recs = delta_of(nodes, base).added_or_updated;
    lemma_resource_one(nodes, base, r1, href1, etag1, data1, tasks1);
    lemma_resource_one(nodes, base, r2, href2, etag2, data2, tasks2);
    let i = choose|start: int| is_block(recs, origin, r1, start, href1, etag1, data1, tasks1);
    let j = choose|start: int| is_block(recs, origin, r2, start, href2, etag2, data2, tasks2);
    assert(is_block(recs, origin, r1, i, href1, etag1, data1, tasks1));
    assert(is_block(recs, origin, r2, j, href2, etag2, data2, tasks2));
    assert(recs[i].etag == etag1);
    assert(recs[j].etag == etag2);
}

/// The response `r` reports that the resource at `href` is gone.
pub open spec fn is_gone(nodes: Seq<XmlNodeV>, base: Seq<char>, r: int, href: Seq<char>) -> bool {
    &&& exists|h: Seq<char>| #[trigger]
        is_addressed(nodes, r, h) && h.len() > 0 && leads_to(base, h, href)
    &&& status_says(nodes, r, " 404 "@)
}

/// The addresses are those of the resources that the responses among the first `n` nodes
/// report as gone, in order.
pub open spec fn tells_gone(
    nodes: Seq<XmlNodeV>,
    base: Seq<char>,
    hrefs: Seq<Seq<char>>,
    origin: Seq<int>,
    n: int,
) -> bool {
    &&& origin.len() == hrefs.len()
    &&& forall|k: int|
        0 <= k < hrefs.len() ==> 0 <= #[trigger] origin[k] < n && is_gone(
            nodes,
            base,
            origin[k],
            hrefs[k],
        )
    &&& forall|i: int, j: int| 0 <= i < j < hrefs.len() ==> #[trigger] origin[i] < #[trigger] origin[j]
    &&& forall|r: int, href: Seq<char>| #[trigger]
        is_gone(nodes, base, r, href) && r < n ==> exists|k: int|
            0 <= k < hrefs.len() && #[trigger] origin[k] == r && hrefs[k] == href
}

proof fn lemma_gone(nodes: Seq<XmlNodeV>, base: Seq<char>, n: nat) -> (origin: Seq<int>)
    requires
        n <= nodes.len(),
    ensures
        tells_gone(nodes, base, deleted_among(nodes, base, n), origin, n as int),
    decreases n,
{
    if n == 0 {
        Seq::<int>::empty()
    } else {
        let m = n - 1;
        let before = deleted_among(nodes, base, m as nat);
        let sofar = lemma_gone(nodes, base, m as nat);
        let hrefs = deleted_among(nodes, base, n);
        let added = tagged("response"@)(nodes[m]) && response_href(nodes, m) is Some
            && reports_deleted(nodes, m);
        lemma_status(nodes, m, " 404 "@);
        let origin = if added {
            sofar.push(m)
        } else {
            sofar
        };
        if added {
            let h = response_href(nodes, m)->Some_0;
            lemma_response_href(nodes, m);
            assert(hrefs == before.push(resolved(base, h)));
            assert(is_addressed(nodes, m, h));
            assert(leads_to(base, h, resolved(base, h)));
            assert(is_gone(nodes, base, m, resolved(base, h)));
        } else {
            assert(hrefs == before);
        }
        assert forall|k: int| 0 <= k < hrefs.len() implies 0 <= #[trigger] origin[k] < n && is_gone(
            nodes,
            base,
            origin[k],
            hrefs[k],
        ) by {
            if k < before.len() {
                assert(origin[k] == sofar[k]);
                assert(hrefs[k] == before[k]);
            }
        }
        assert forall|r: int, href: Seq<char>| #[trigger]
            is_gone(nodes, base, r, href) && r < n implies exists|k: int|
            0 <= k < hrefs.len() && #[trigger] origin[k] == r && hrefs[k] == href by {
            let h = choose|h: Seq<char>| #[trigger]
                is_addressed(nodes, r, h) && h.len() > 0 && leads_to(base, h, href);
            lemma_response_href(nodes, r);
            if r < m {
                let k = choose|k: int|
                    0 <= k < before.len() && #[trigger] sofar[k] == r && before[k] == href;
                assert(origin[k] == r && hrefs[k] == href);
            } else {
                assert(added);
                assert(origin[before.len() as int] == r);
            }
        }
        origin
    }
}

/// The deletions of a sync are the addresses of the responses whose status tells that the
/// resource is not found, each once and in order, and no others.
pub proof fn law_deletions_are_told(nodes: Seq<XmlNodeV>, base: Seq<char>)
    ensures
        exists|origin: Seq<int>|
            tells_gone(
                nodes,
                base,
                delta_of(nodes, base).deleted_hrefs,
                origin,
                nodes.len() as int,
            ),
{
    let origin = lemma_gone(nodes, base, nodes.len());
    assert(tells_gone(
        nodes,
        base,
        delta_of(nodes, base).deleted_hrefs,
        origin,
        nodes.len() as int,
    ));
}

/// The token of a sync is the trimmed text of the first sync-token of the answer; there is
/// none where that text is missing or blank.
pub proof fn law_token_is_told(nodes: Seq<XmlNodeV>, base: Seq<char>, k: int)
    requires
        0 <= k < nodes.len(),
        nodes[k].tag == Some("sync-token"@),
        forall|i: int| 0 <= i < k ==> (#[trigger] nodes[i]).tag != Some("sync-token"@),
    ensures
        delta_of(nodes, base).new_sync_token is Some == (nodes[k].text is Some && trimmed(
            nodes[k].text->Some_0,
        ).len() > 0),
        delta_of(nodes, base).new_sync_token is Some ==> delta_of(nodes, base).new_sync_token
            == Some(trimmed(nodes[k].text->Some_0)),
{
    assert forall|i: int| 0 <= i < k implies !tagged("sync-token"@)(#[trigger] nodes[i]) by {}
    lemma_find_is(nodes, tagged("sync-token"@), k as nat);
}

/// Without a sync-token in the answer there is no token.
pub proof fn law_no_token(nodes: Seq<XmlNodeV>, base: Seq<char>)
    requires
        forall|i: int| 0 <= i < nodes.len() ==> (#[trigger] nodes[i]).tag != Some("sync-token"@),
    ensures
        delta_of(nodes, base).new_sync_token is None,
{
    assert forall|i: int| 0 <= i < nodes.len() implies !tagged("sync-token"@)(
        #[trigger] nodes[i],
    ) by {}
    lemma_find_is(nodes, tagged("sync-token"@), nodes.len());
}

// --- The lists of an account ---

/// The response `r` reports a resource type in which a calendar stands: the element `t` in
/// the property `c`.
pub open spec fn types_calendar(
    nodes: Seq<XmlNodeV>,
    r: int,
    p: int,
    q: int,
    c: int,
    t: int,
) -> bool {
    is_reported(nodes, r, p, q) && stands_under(nodes, c, q, "resourcetype"@) && stands_under(
        nodes,
        t,
        c,
        "calendar"@,
    )
}

/// The first attribute called `name` is the one at `a`, and its value is `value`.
pub open spec fn is_attribute(
    attrs: Seq<(Seq<char>, Seq<char>)>,
    a: int,
    name: Seq<char>,
    value: Seq<char>,
) -> bool {
    &&& 0 <= a < attrs.len() && attrs[a].0 == name && attrs[a].1 == value
    &&& forall|b: int| 0 <= b < a ==> (#[trigger] attrs[b]).0 != name
}

/// The response `r` reports a set of components, the property `c`, in which the component
/// `t` is one of to-dos.
pub open spec fn types_todos(
    nodes: Seq<XmlNodeV>,
    r: int,
    p: int,
    q: int,
    c: int,
    t: int,
    a: int,
) -> bool {
    is_reported(nodes, r, p, q) && stands_under(nodes, c, q, "supported-calendar-component-set"@)
        && stands_under(nodes, t, c, "comp"@) && is_attribute(
        nodes[t].attributes,
        a,
        "name"@,
        "VTODO"@,
    )
}

/// The node `v` is a display name that is not blank, reported by the propstat `p` of the
/// response `r`.
pub open spec fn gives_name(nodes: Seq<XmlNodeV>, r: int, p: int, q: int, v: int) -> bool {
    gives(nodes, r, p, q, v, "displayname"@) && trimmed(nodes[v].text->Some_0).len() > 0
}

/// `name` is the last display name that the response `r` reports in one of its first `n`
/// nodes, if any.
pub open spec fn displays_among(
    nodes: Seq<XmlNodeV>,
    r: int,
    name: Option<Seq<char>>,
    n: int,
) -> bool {
    ||| exists|p: int, q: int, v: int|
        {
            &&& #[trigger] gives_name(nodes, r, p, q, v)
            &&& p < n
            &&& name == Some(trimmed(nodes[v].text->Some_0))
            &&& forall|p2: int, q2: int, v2: int| #[trigger]
                gives_name(nodes, r, p2, q2, v2) && p2 < n ==> p2 < p || (p2 == p && v2 <= v)
        }
    ||| name is None && forall|p: int, q: int, v: int|
        p < n ==> !(#[trigger] gives_name(nodes, r, p, q, v))
}

/// `c` is the list that the response `r` reports: a calendar for to-dos at an address that
/// resolves, under its display name or else under its address.
pub open spec fn is_list(nodes: Seq<XmlNodeV>, base: Seq<char>, r: int, c: CalendarV) -> bool {
    &&& exists|h: Seq<char>| #[trigger]
        is_addressed(nodes, r, h) && joined_url(base, h) == Ok::<Seq<char>, Seq<char>>(c.href)
    &&& exists|p: int, q: int, t: int, u: int| #[trigger] types_calendar(nodes, r, p, q, t, u)
    &&& exists|p: int, q: int, t: int, u: int, a: int| #[trigger]
        types_todos(nodes, r, p, q, t, u, a)
    &&& exists|name: Option<Seq<char>>| #[trigger]
        displays_among(nodes, r, name, nodes.len() as int) && c.display_name == (match name {
            Some(d) => d,
            None => c.href,
        })
}

/// The lists are those that the responses among the first `n` nodes report, in order.
pub open spec fn tells_lists(
    nodes: Seq<XmlNodeV>,
    base: Seq<char>,
    lists: Seq<CalendarV>,
    origin: Seq<int>,
    n: int,
) -> bool {
    &&& origin.len() == lists.len()
    &&& forall|k: int|
        0 <= k < lists.len() ==> 0 <= #[trigger] origin[k] < n && is_list(
            nodes,
            base,
            origin[k],
            lists[k],
        )
    &&& forall|i: int, j: int| 0 <= i < j < lists.len() ==> #[trigger] origin[i] < #[trigger] origin[j]
    &&& forall|r: int, c: CalendarV| #[trigger]
        is_list(nodes, base, r, c) && r < n ==> exists|k: int|
            0 <= k < lists.len() && #[trigger] origin[k] == r && lists[k] == c
}

proof fn lemma_attribute(
    attrs: Seq<(Seq<char>, Seq<char>)>,
    name: Seq<char>,
    value: Seq<char>,
    i: nat,
)
    requires
        i <= attrs.len(),
        forall|b: int| 0 <= b < i ==> (#[trigger] attrs[b]).0 != name,
    ensures
        (attribute_from(attrs, name, i) == Some(value)) == (exists|a: int|
            is_attribute(attrs, a, name, value)),
    decreases attrs.len() - i,
{
    if i < attrs.len() {
        if attrs[i as int].0 == name {
            if attrs[i as int].1 == value {
                assert(is_attribute(attrs, i as int, name, value));
            } else if exists|a: int| is_attribute(attrs, a, name, value) {
                let a = choose|a: int| is_attribute(attrs, a, name, value);
                assert(a != i);
                assert(a > i);
                assert(attrs[i as int].0 != name);
            }
        } else {
            lemma_attribute(attrs, name, value, i + 1);
        }
    }
}

proof fn lemma_is_calendar(nodes: Seq<XmlNodeV>, r: int)
    ensures
        is_calendar(nodes, r) == (exists|p: int, q: int, t: int, u: int| #[trigger]
            types_calendar(nodes, r, p, q, t, u)),
{
    if is_calendar(nodes, r) {
        let p = choose|p: int|
            0 <= p < nodes.len() && (#[trigger] good_prop(nodes, r, p)) < nodes.len()
                && prop_is_calendar(nodes, good_prop(nodes, r, p));
        let q = good_prop(nodes, r, p);
        lemma_good_prop(nodes, r, p);
        let c = choose|c: int|
            0 <= c < nodes.len() && is_property(nodes, q, c, "resourcetype"@)
                && #[trigger] has_child(nodes, c, "calendar"@);
        lemma_child(nodes, c, "calendar"@);
        assert(types_calendar(nodes, r, p, q, c, child(nodes, c, "calendar"@)));
    }
    if exists|p: int, q: int, t: int, u: int| #[trigger] types_calendar(nodes, r, p, q, t, u) {
        let (p, q, c, u) = choose|p: int, q: int, t: int, u: int| #[trigger]
            types_calendar(nodes, r, p, q, t, u);
        lemma_good_prop(nodes, r, p);
        lemma_child(nodes, c, "calendar"@);
        assert(q == good_prop(nodes, r, p));
        assert(is_property(nodes, q, c, "resourcetype"@));
        assert(has_child(nodes, c, "calendar"@));
        assert(prop_is_calendar(nodes, q));
    }
}

proof fn lemma_holds_todos(nodes: Seq<XmlNodeV>, r: int)
    ensures
        holds_todos(nodes, r) == (exists|p: int, q: int, t: int, u: int, a: int| #[trigger]
            types_todos(nodes, r, p, q, t, u, a)),
{
    if holds_todos(nodes, r) {
        let p = choose|p: int|
            0 <= p < nodes.len() && (#[trigger] good_prop(nodes, r, p)) < nodes.len()
                && prop_holds_todos(nodes, good_prop(nodes, r, p));
        let q = good_prop(nodes, r, p);
        lemma_good_prop(nodes, r, p);
        let c = choose|c: int|
            0 <= c < nodes.len() && is_property(nodes, q, c, "supported-calendar-component-set"@)
                && #[trigger] names_vtodo(nodes, c);
        let i = choose|i: int|
            0 <= i < nodes.len() && child_of(c, "comp"@)(#[trigger] nodes[i]) && attribute_from(
                nodes[i].attributes,
                "name"@,
                0,
            ) == Some("VTODO"@);
        lemma_attribute(nodes[i].attributes, "name"@, "VTODO"@, 0);
        let a = choose|a: int| is_attribute(nodes[i].attributes, a, "name"@, "VTODO"@);
        assert(types_todos(nodes, r, p, q, c, i, a));
    }
    if exists|p: int, q: int, t: int, u: int, a: int| #[trigger]
        types_todos(nodes, r, p, q, t, u, a) {
        let (p, q, c, i, a) = choose|p: int, q: int, t: int, u: int, a: int| #[trigger]
            types_todos(nodes, r, p, q, t, u, a);
        lemma_good_prop(nodes, r, p);
        assert(q == good_prop(nodes, r, p));
        assert(is_attribute(nodes[i].attributes, a, "name"@, "VTODO"@));
        lemma_attribute(nodes[i].attributes, "name"@, "VTODO"@, 0);
        assert(child_of(c, "comp"@)(nodes[i]));
        assert(names_vtodo(nodes, c));
        assert(is_property(nodes, q, c, "supported-calendar-component-set"@));
        assert(prop_holds_todos(nodes, q));
    }
}

/// The last display name of `prop` that is not blank.
spec fn is_last_name(nodes: Seq<XmlNodeV>, prop: int, n: int, v: int) -> bool {
    &&& is_name_under(nodes, v, prop)
    &&& v < n
    &&& forall|w: int| v < w < n ==> !(#[trigger] is_name_under(nodes, w, prop))
}

spec fn is_name_under(nodes: Seq<XmlNodeV>, v: int, prop: int) -> bool {
    stands_under(nodes, v, prop, "displayname"@) && nodes[v].text is Some && trimmed(
        nodes[v].text->Some_0,
    ).len() > 0
}

proof fn lemma_prop_name(nodes: Seq<XmlNodeV>, prop: int, before: Option<Seq<char>>, n: nat)
    requires
        n <= nodes.len(),
    ensures
        ({
            let out = prop_name(nodes, prop, before, n);
            ||| exists|v: int| #[trigger]
                is_last_name(nodes, prop, n as int, v) && out == Some(
                    trimmed(nodes[v].text->Some_0),
                )
            ||| out == before && forall|w: int| w < n ==> !(#[trigger] is_name_under(nodes, w, prop))
        }),
    decreases n,
{
    if n > 0 {
        lemma_prop_name(nodes, prop, before, (n - 1) as nat);
        let m = n - 1;
        let sofar = prop_name(nodes, prop, before, m as nat);
        assert(is_property(nodes, prop, m, "displayname"@) == stands_under(
            nodes,
            m,
            prop,
            "displayname"@,
        ));
        if is_name_under(nodes, m, prop) {
            assert(is_last_name(nodes, prop, n as int, m));
        } else if exists|v: int| #[trigger]
            is_last_name(nodes, prop, m, v) && sofar == Some(trimmed(nodes[v].text->Some_0)) {
            let v = choose|v: int| #[trigger]
                is_last_name(nodes, prop, m, v) && sofar == Some(trimmed(nodes[v].text->Some_0));
            assert(is_last_name(nodes, prop, n as int, v));
        }
    }
}

spec fn is_last_given(
    nodes: Seq<XmlNodeV>,
    r: int,
    name: Option<Seq<char>>,
    n: int,
    p: int,
    q: int,
    v: int,
) -> bool {
    &&& gives_name(nodes, r, p, q, v)
    &&& p < n
    &&& name == Some(trimmed(nodes[v].text->Some_0))
    &&& forall|p2: int, q2: int, v2: int| #[trigger]
        gives_name(nodes, r, p2, q2, v2) && p2 < n ==> p2 < p || (p2 == p && v2 <= v)
}

proof fn lemma_response_name(nodes: Seq<XmlNodeV>, r: int, n: nat)
    requires
        n <= nodes.len(),
    ensures
        displays_among(nodes, r, response_name(nodes, r, n), n as int),
    decreases n,
{
    let out = response_name(nodes, r, n);
    if n > 0 {
        let m = n - 1;
        let sofar = response_name(nodes, r, m as nat);
        lemma_response_name(nodes, r, m as nat);
        lemma_good_prop(nodes, r, m);
        let prop = good_prop(nodes, r, m);
        if prop < nodes.len() {
            lemma_prop_name(nodes, prop, sofar, nodes.len());
        }
        let len = nodes.len() as int;
        if prop < nodes.len() && exists|v: int| #[trigger]
            is_last_name(nodes, prop, len, v) && out == Some(trimmed(nodes[v].text->Some_0)) {
            let v = choose|v: int| #[trigger]
                is_last_name(nodes, prop, len, v) && out == Some(trimmed(nodes[v].text->Some_0));
            assert(gives_name(nodes, r, m, prop, v));
            assert forall|p2: int, q2: int, v2: int| #[trigger]
                gives_name(nodes, r, p2, q2, v2) && p2 < n implies p2 < m || (p2 == m && v2
                <= v) by {
                if p2 == m {
                    assert(is_reported(nodes, r, m, q2));
                    assert(is_name_under(nodes, v2, prop));
                }
            }
        } else {
            assert(out == sofar);
            assert forall|q2: int, v2: int| !(#[trigger] gives_name(nodes, r, m, q2, v2)) by {
                if gives_name(nodes, r, m, q2, v2) {
                    assert(is_reported(nodes, r, m, q2));
                    assert(is_name_under(nodes, v2, prop));
                }
            }
            if exists|p: int, q: int, v: int| is_last_given(nodes, r, sofar, m, p, q, v) {
                let (p, q, v) = choose|p: int, q: int, v: int|
                    is_last_given(nodes, r, sofar, m, p, q, v);
                assert forall|p2: int, q2: int, v2: int| #[trigger]
                    gives_name(nodes, r, p2, q2, v2) && p2 < n implies p2 < p || (p2 == p && v2
                    <= v) by {
                    if p2 == m {
                        assert(!gives_name(nodes, r, m, q2, v2));
                    }
                }
                assert(gives_name(nodes, r, p, q, v));
            } else {
                assert forall|p: int, q: int, v: int| p < n implies !(#[trigger] gives_name(
                    nodes,
                    r,
                    p,
                    q,
                    v,
                )) by {
                    if p < m && gives_name(nodes, r, p, q, v) {
                        let (p1, q1, v1) = choose|p: int, q: int, v: int|
                            {
                                &&& #[trigger] gives_name(nodes, r, p, q, v)
                                &&& p < m
                                &&& sofar == Some(trimmed(nodes[v].text->Some_0))
                                &&& forall|p2: int, q2: int, v2: int| #[trigger]
                                    gives_name(nodes, r, p2, q2, v2) && p2 < m ==> p2 < p || (p2
                                        == p && v2 <= v)
                            };
                        assert(is_last_given(nodes, r, sofar, m, p1, q1, v1));
                    }
                }
            }
        }
    }
}

proof fn lemma_names_one(nodes: Seq<XmlNodeV>, r: int, a: Option<Seq<char>>, b: Option<Seq<char>>)
    requires
        displays_among(nodes, r, a, nodes.len() as int),
        displays_among(nodes, r, b, nodes.len() as int),
    ensures
        a == b,
{
    if exists|p: int, q: int, v: int| #[trigger] gives_name(nodes, r, p, q, v) {
        let (p, q, v) = choose|p: int, q: int, v: int| #[trigger] gives_name(nodes, r, p, q, v);
        assert(p < nodes.len());
    }
}

proof fn lemma_list(nodes: Seq<XmlNodeV>, base: Seq<char>, r: int, c: CalendarV)
    requires
        0 <= r < nodes.len(),
    ensures
        is_list(nodes, base, r, c) == (tagged("response"@)(nodes[r]) && calendar_at(nodes, base, r)
            == Some(c)),
{
    lemma_child(nodes, r, "href"@);
    lemma_is_calendar(nodes, r);
    lemma_holds_todos(nodes, r);
    lemma_response_name(nodes, r, nodes.len());
    let name = response_name(nodes, r, nodes.len());
    if is_list(nodes, base, r, c) {
        let h = choose|h: Seq<char>| #[trigger]
            is_addressed(nodes, r, h) && joined_url(base, h) == Ok::<Seq<char>, Seq<char>>(c.href);
        let other = choose|name: Option<Seq<char>>| #[trigger]
            displays_among(nodes, r, name, nodes.len() as int) && c.display_name == (match name {
                Some(d) => d,
                None => c.href,
            });
        lemma_names_one(nodes, r, name, other);
        assert(calendar_at(nodes, base, r) == Some(c));
    }
    if tagged("response"@)(nodes[r]) && calendar_at(nodes, base, r) == Some(c) {
        let h = trimmed(child_text(nodes, r, "href"@)->Some_0);
        assert(is_first_under(nodes, child(nodes, r, "href"@), r, "href"@));
        assert(is_addressed(nodes, r, h));
        assert(displays_among(nodes, r, name, nodes.len() as int));
    }
}

proof fn lemma_lists(nodes: Seq<XmlNodeV>, base: Seq<char>, n: nat) -> (origin: Seq<int>)
    requires
        n <= nodes.len(),
    ensures
        tells_lists(nodes, base, calendars_among(nodes, base, n), origin, n as int),
    decreases n,
{
    if n == 0 {
        Seq::<int>::empty()
    } else {
        let m = n - 1;
        let before = calendars_among(nodes, base, m as nat);
        let sofar = lemma_lists(nodes, base, m as nat);
        let lists = calendars_among(nodes, base, n);
        let added = tagged("response"@)(nodes[m]) && calendar_at(nodes, base, m) is Some;
        let origin = if added {
            sofar.push(m)
        } else {
            sofar
        };
        if added {
            let c = calendar_at(nodes, base, m)->Some_0;
            lemma_list(nodes, base, m, c);
            assert(lists == before.push(c));
        } else {
            assert(lists == before);
        }
        assert forall|k: int| 0 <= k < lists.len() implies 0 <= #[trigger] origin[k] < n && is_list(
            nodes,
            base,
            origin[k],
            lists[k],
        ) by {
            if k < before.len() {
                assert(origin[k] == sofar[k]);
                assert(lists[k] == before[k]);
            }
        }
        assert forall|r: int, c: CalendarV| #[trigger]
            is_list(nodes, base, r, c) && r < n implies exists|k: int|
            0 <= k < lists.len() && #[trigger] origin[k] == r && lists[k] == c by {
            if r < m {
                let k = choose|k: int|
                    0 <= k < before.len() && #[trigger] sofar[k] == r && before[k] == c;
                assert(origin[k] == r && lists[k] == c);
            } else {
                lemma_list(nodes, base, r, c);
                assert(origin[before.len() as int] == r);
            }
        }
        origin
    }
}

/// The lists of an account are those of the responses that report a calendar for to-dos,
/// each once and in order, and no others.
pub proof fn law_lists_are_told(nodes: Seq<XmlNodeV>, base: Seq<char>)
    ensures
        exists|origin: Seq<int>|
            tells_lists(
                nodes,
                base,
                calendars_among(nodes, base, nodes.len()),
                origin,
                nodes.len() as int,
            ),
{
    let origin = lemma_lists(nodes, base, nodes.len());
    assert(tells_lists(
        nodes,
        base,
        calendars_among(nodes, base, nodes.len()),
        origin,
        nodes.len() as int,
    ));
}

/// A response at an address that resolves is listed as soon as it reports a calendar as its
/// type and some component of to-dos, at whatever place among the components.
pub proof fn law_calendar_for_todos_is_listed(
    nodes: Seq<XmlNodeV>,
    base: Seq<char>,
    r: int,
    h: Seq<char>,
    p1: int,
    q1: int,
    c1: int,
    t1: int,
    p2: int,
    q2: int,
    c2: int,
    t2: int,
    a: int,
)
    requires
        is_addressed(nodes, r, h),
        joined_url(base, h) is Ok,
        types_calendar(nodes, r, p1, q1, c1, t1),
        types_todos(nodes, r, p2, q2, c2, t2, a),
    ensures
        exists|k: int|
            0 <= k < calendars_among(nodes, base, nodes.len()).len() && (
            #[trigger] calendars_among(nodes, base, nodes.len())[k]).href == joined_url(
                base,
                h,
            )->Ok_0,
{
    let href = joined_url(base, h)->Ok_0;
    lemma_response_name(nodes, r, nodes.len());
    let name = response_name(nodes, r, nodes.len());
    let c = CalendarV {
        display_name: match name {
            Some(d) => d,
            None => href,
        },
        href,
    };
    assert(displays_among(nodes, r, name, nodes.len() as int));
    assert(is_list(nodes, base, r, c));
    let origin = lemma_lists(nodes, base, nodes.len());
    let lists = calendars_among(nodes, base, nodes.len());
    let k = choose|k: int| 0 <= k < lists.len() && #[trigger] origin[k] == r && lists[k] == c;
    assert(lists[k].href == href);
}

/// The documents differ at most in their attributes.
spec fn same_shape(a: Seq<XmlNodeV>, b: Seq<XmlNodeV>) -> bool {
    a.len() == b.len() && forall|i: int|
        0 <= i < a.len() ==> (#[trigger] a[i]).tag == b[i].tag && a[i].parent == b[i].parent
            && a[i].text == b[i].text
}

proof fn lemma_same_shape(a: Seq<XmlNodeV>, b: Seq<XmlNodeV>, r: int)
    requires
        same_shape(a, b),
    ensures
        forall|i: int, x: int, tag: Seq<char>| #[trigger]
            stands_under(a, i, x, tag) == stands_under(b, i, x, tag),
        forall|p: int, q: int| #[trigger] is_reported(a, r, p, q) == is_reported(b, r, p, q),
        forall|h: Seq<char>| #[trigger] is_addressed(a, r, h) == is_addressed(b, r, h),
        forall|p: int, q: int, v: int| #[trigger]
            gives_name(a, r, p, q, v) == gives_name(b, r, p, q, v),
{
    assert forall|i: int, x: int, tag: Seq<char>| #[trigger]
        stands_under(a, i, x, tag) == stands_under(b, i, x, tag) by {
        if 0 <= i < a.len() {
            assert(a[i].tag == b[i].tag);
        }
    }
    assert forall|i: int, x: int, tag: Seq<char>| #[trigger]
        is_first_under(a, i, x, tag) == is_first_under(b, i, x, tag) by {
        assert(stands_under(a, i, x, tag) == stands_under(b, i, x, tag));
        assert forall|j: int| 0 <= j < i implies (#[trigger] stands_under(a, j, x, tag))
            == stands_under(b, j, x, tag) by {}
        assert forall|j: int| 0 <= j < i implies (#[trigger] stands_under(b, j, x, tag))
            == stands_under(a, j, x, tag) by {}
    }
    assert forall|x: int, w: Seq<char>| #[trigger]
        status_says(a, x, w) == status_says(b, x, w) by {
        if status_says(a, x, w) {
            let (k, i) = choose|k: int, i: int| #[trigger]
                is_first_under(a, k, x, "status"@) && a[k].text is Some && #[trigger] stands_at(
                    a[k].text->Some_0,
                    w,
                    i,
                );
            assert(is_first_under(b, k, x, "status"@) == is_first_under(a, k, x, "status"@));
            assert(a[k].text == b[k].text);
            assert(stands_at(b[k].text->Some_0, w, i));
        }
        if status_says(b, x, w) {
            let (k, i) = choose|k: int, i: int| #[trigger]
                is_first_under(b, k, x, "status"@) && b[k].text is Some && #[trigger] stands_at(
                    b[k].text->Some_0,
                    w,
                    i,
                );
            assert(is_first_under(a, k, x, "status"@) == is_first_under(b, k, x, "status"@));
            assert(a[k].text == b[k].text);
            assert(stands_at(a[k].text->Some_0, w, i));
        }
    }
    assert forall|p: int, q: int| #[trigger]
        is_reported(a, r, p, q) == is_reported(b, r, p, q) by {
        assert(stands_under(a, p, r, "propstat"@) == stands_under(b, p, r, "propstat"@));
        assert(status_says(a, p, " 200 "@) == status_says(b, p, " 200 "@));
        assert(is_first_under(a, q, p, "prop"@) == is_first_under(b, q, p, "prop"@));
    }
    assert forall|h: Seq<char>| #[trigger] is_addressed(a, r, h) == is_addressed(b, r, h) by {
        if is_addressed(a, r, h) {
            let k = choose|k: int| #[trigger]
                is_first_under(a, k, r, "href"@) && a[k].text is Some && h == trimmed(
                    a[k].text->Some_0,
                );
            assert(is_first_under(b, k, r, "href"@) == is_first_under(a, k, r, "href"@));
            assert(a[k].text == b[k].text);
            assert(a[r].tag == b[r].tag);
        }
        if is_addressed(b, r, h) {
            let k = choose|k: int| #[trigger]
                is_first_under(b, k, r, "href"@) && b[k].text is Some && h == trimmed(
                    b[k].text->Some_0,
                );
            assert(is_first_under(a, k, r, "href"@) == is_first_under(b, k, r, "href"@));
            assert(a[k].text == b[k].text);
            assert(a[r].tag == b[r].tag);
        }
    }
    assert forall|p: int, q: int, v: int| #[trigger]
        gives_name(a, r, p, q, v) == gives_name(b, r, p, q, v) by {
        assert(is_reported(a, r, p, q) == is_reported(b, r, p, q));
        assert(stands_under(a, v, q, "displayname"@) == stands_under(b, v, q, "displayname"@));
        if 0 <= v < a.len() {
            assert(a[v].text == b[v].text);
        }
    }
}

/// Two documents list the same where they differ at most in their attributes, and where the
/// components of to-dos stand in the same sets.
proof fn lemma_list_carries(
    a: Seq<XmlNodeV>,
    b: Seq<XmlNodeV>,
    base: Seq<char>,
    r: int,
    c: CalendarV,
)
    requires
        same_shape(a, b),
        forall|x: int, t: int, k: int|
            stands_under(a, t, x, "comp"@) && #[trigger] is_attribute(
                a[t].attributes,
                k,
                "name"@,
                "VTODO"@,
            ) && #[trigger] stands_under(a, x, a[x].parent->Some_0 as int, a[x].tag->Some_0)
                ==> exists|u: int, l: int|
                stands_under(b, u, x, "comp"@) && #[trigger] is_attribute(
                    b[u].attributes,
                    l,
                    "name"@,
                    "VTODO"@,
                ),
        is_list(a, base, r, c),
    ensures
        is_list(b, base, r, c),
{
    lemma_same_shape(a, b, r);
    let h = choose|h: Seq<char>| #[trigger]
        is_addressed(a, r, h) && joined_url(base, h) == Ok::<Seq<char>, Seq<char>>(c.href);
    assert(is_addressed(a, r, h) == is_addressed(b, r, h));
    let (p, q, x, t) = choose|p: int, q: int, t: int, u: int| #[trigger]
        types_calendar(a, r, p, q, t, u);
    assert(is_reported(a, r, p, q) == is_reported(b, r, p, q));
    assert(stands_under(a, x, q, "resourcetype"@) == stands_under(b, x, q, "resourcetype"@));
    assert(stands_under(a, t, x, "calendar"@) == stands_under(b, t, x, "calendar"@));
    assert(types_calendar(b, r, p, q, x, t));
    let (p2, q2, x2, t2, k2) = choose|p: int, q: int, t: int, u: int, k: int| #[trigger]
        types_todos(a, r, p, q, t, u, k);
    let set = "supported-calendar-component-set"@;
    assert(is_reported(a, r, p2, q2) == is_reported(b, r, p2, q2));
    assert(stands_under(a, x2, q2, set) == stands_under(b, x2, q2, set));
    assert(is_attribute(a[t2].attributes, k2, "name"@, "VTODO"@));
    assert(stands_under(a, x2, a[x2].parent->Some_0 as int, a[x2].tag->Some_0));
    let (u, l) = choose|u: int, l: int|
        stands_under(b, u, x2, "comp"@) && #[trigger] is_attribute(
            b[u].attributes,
            l,
            "name"@,
            "VTODO"@,
        );
    assert(types_todos(b, r, p2, q2, x2, u, l));
    let name = choose|name: Option<Seq<char>>| #[trigger]
        displays_among(a, r, name, a.len() as int) && c.display_name == (match name {
            Some(d) => d,
            None => c.href,
        });
    assert(displays_among(b, r, name, b.len() as int)) by {
        let n = a.len() as int;
        if exists|p: int, q: int, v: int| is_last_given(a, r, name, n, p, q, v) {
            let (p, q, v) = choose|p: int, q: int, v: int| is_last_given(a, r, name, n, p, q, v);
            assert(gives_name(a, r, p, q, v) == gives_name(b, r, p, q, v));
            assert(a[v].text == b[v].text);
            assert forall|p2: int, q2: int, v2: int| #[trigger]
                gives_name(b, r, p2, q2, v2) && p2 < n implies p2 < p || (p2 == p && v2 <= v) by {
                assert(gives_name(a, r, p2, q2, v2) == gives_name(b, r, p2, q2, v2));
            }
            assert(gives_name(b, r, p, q, v));
        } else {
            assert(name is None) by {
                if name is Some {
                    let (p, q, v) = choose|p: int, q: int, v: int|
                        {
                            &&& #[trigger] gives_name(a, r, p, q, v)
                            &&& p < n
                            &&& name == Some(trimmed(a[v].text->Some_0))
                            &&& forall|p2: int, q2: int, v2: int| #[trigger]
                                gives_name(a, r, p2, q2, v2) && p2 < n ==> p2 < p || (p2 == p && v2
                                    <= v)
                        };
                    assert(is_last_given(a, r, name, n, p, q, v));
                }
            }
            assert forall|p: int, q: int, v: int| p < n implies !(#[trigger] gives_name(
                b,
                r,
                p,
                q,
                v,
            )) by {
                assert(gives_name(a, r, p, q, v) == gives_name(b, r, p, q, v));
            }
        }
    }
}

proof fn lemma_same_lists(a: Seq<XmlNodeV>, b: Seq<XmlNodeV>, base: Seq<char>, n: nat)
    requires
        a.len() == b.len(),
        n <= a.len(),
        forall|r: int, c: CalendarV| #[trigger] is_list(a, base, r, c) == is_list(b, base, r, c),
    ensures
        calendars_among(a, base, n) == calendars_among(b, base, n),
    decreases n,
{
    if n > 0 {
        let m = n - 1;
        lemma_same_lists(a, b, base, m as nat);
        if calendar_at(a, base, m) is Some {
            let c = calendar_at(a, base, m)->Some_0;
            lemma_list(a, base, m, c);
            lemma_list(b, base, m, c);
        }
        if calendar_at(b, base, m) is Some {
            let c = calendar_at(b, base, m)->Some_0;
            lemma_list(a, base, m, c);
            lemma_list(b, base, m, c);
        }
    }
}

/// The document in which two elements have exchanged their attributes.
pub open spec fn exchanged(nodes: Seq<XmlNodeV>, i: int, j: int) -> Seq<XmlNodeV> {
    nodes.update(i, XmlNodeV { attributes: nodes[j].attributes, ..nodes[i] }).update(
        j,
        XmlNodeV { attributes: nodes[i].attributes, ..nodes[j] },
    )
}

proof fn lemma_exchanged_carries(
    nodes: Seq<XmlNodeV>,
    base: Seq<char>,
    set: int,
    i: int,
    j: int,
    r: int,
    c: CalendarV,
)
    requires
        stands_under(nodes, i, set, "comp"@),
        stands_under(nodes, j, set, "comp"@),
        is_list(nodes, base, r, c),
    ensures
        is_list(exchanged(nodes, i, j), base, r, c),
{
    let other = exchanged(nodes, i, j);
    assert forall|x: int, t: int, k: int|
        stands_under(nodes, t, x, "comp"@) && #[trigger] is_attribute(
            nodes[t].attributes,
            k,
            "name"@,
            "VTODO"@,
        ) && #[trigger] stands_under(
            nodes,
            x,
            nodes[x].parent->Some_0 as int,
            nodes[x].tag->Some_0,
        ) implies exists|u: int, l: int|
        stands_under(other, u, x, "comp"@) && #[trigger] is_attribute(
            other[u].attributes,
            l,
            "name"@,
            "VTODO"@,
        ) by {
        let u = if t == i {
            j
        } else if t == j {
            i
        } else {
            t
        };
        assert(stands_under(other, u, x, "comp"@));
        assert(is_attribute(other[u].attributes, k, "name"@, "VTODO"@));
    }
    lemma_list_carries(nodes, other, base, r, c);
}

/// The order of the components in a set makes no difference to the lists of an account: they
/// are the same where two components of a set change places.
pub proof fn law_component_order_is_immaterial(
    nodes: Seq<XmlNodeV>,
    base: Seq<char>,
    set: int,
    i: int,
    j: int,
)
    requires
        stands_under(nodes, i, set, "comp"@),
        stands_under(nodes, j, set, "comp"@),
    ensures
        calendars_among(exchanged(nodes, i, j), base, nodes.len()) == calendars_among(
            nodes,
            base,
            nodes.len(),
        ),
{
    let other = exchanged(nodes, i, j);
    assert(exchanged(other, i, j) =~= nodes);
    assert forall|r: int, c: CalendarV| #[trigger]
        is_list(other, base, r, c) == is_list(nodes, base, r, c) by {
        if is_list(nodes, base, r, c) {
            lemma_exchanged_carries(nodes, base, set, i, j, r, c);
        }
        if is_list(other, base, r, c) {
            lemma_exchanged_carries(other, base, set, i, j, r, c);
        }
    }
    lemma_same_lists(other, nodes, base, nodes.len());
}

// --- Single properties ---

/// `path` leads up from the node `n` to the node `a`, from each node to its parent.
pub open spec fn leads_up(nodes: Seq<XmlNodeV>, path: Seq<int>, n: int, a: int) -> bool {
    &&& path.len() > 0 && path[0] == n && path.last() == a
    &&& forall|i: int|
        0 <= i < path.len() - 1 ==> 0 <= #[trigger] path[i] < nodes.len() && (
        nodes[path[i]].parent matches Some(p) && p == path[i + 1] && p < path[i])
}

/// The node `n` is the node `a` or somewhere below it.
pub open spec fn is_inside(nodes: Seq<XmlNodeV>, n: int, a: int) -> bool {
    exists|path: Seq<int>| leads_up(nodes, path, n, a)
}

proof fn lemma_inside(nodes: Seq<XmlNodeV>, n: nat, a: nat)
    requires
        n < nodes.len(),
    ensures
        within(nodes, n, a) == is_inside(nodes, n as int, a as int),
    decreases n,
{
    if n == a {
        let path = seq![n as int];
        assert(leads_up(nodes, path, n as int, a as int));
    } else {
        if nodes[n as int].parent is Some && nodes[n as int].parent->Some_0 < n {
            let up = nodes[n as int].parent->Some_0 as nat;
            lemma_inside(nodes, up, a);
            if is_inside(nodes, up as int, a as int) {
                let rest = choose|path: Seq<int>| leads_up(nodes, path, up as int, a as int);
                let path = seq![n as int] + rest;
                assert(path.last() == rest.last());
                assert forall|i: int| 0 <= i < path.len() - 1 implies 0 <= #[trigger] path[i]
                    < nodes.len() && (nodes[path[i]].parent matches Some(p) && p == path[i + 1]
                    && p < path[i]) by {
                    if i > 0 {
                        assert(path[i] == rest[i - 1]);
                        assert(path[i + 1] == rest[i]);
                    }
                }
                assert(leads_up(nodes, path, n as int, a as int));
            }
            if is_inside(nodes, n as int, a as int) {
                let path = choose|path: Seq<int>| leads_up(nodes, path, n as int, a as int);
                assert(path.len() > 1);
                assert(path[0] == n);
                let rest = path.skip(1);
                assert forall|i: int| 0 <= i < rest.len() - 1 implies 0 <= #[trigger] rest[i]
                    < nodes.len() && (nodes[rest[i]].parent matches Some(p) && p == rest[i + 1]
                    && p < rest[i]) by {
                    assert(rest[i] == path[i + 1]);
                }
                assert(leads_up(nodes, rest, up as int, a as int));
            }
        } else if is_inside(nodes, n as int, a as int) {
            let path = choose|path: Seq<int>| leads_up(nodes, path, n as int, a as int);
            assert(path[0] == n);
        }
    }
}

/// `h` is the first href inside the property `name` that the propstat `p` reports, with a
/// text in it.
pub open spec fn is_property_href(
    nodes: Seq<XmlNodeV>,
    p: int,
    name: Seq<char>,
    q: int,
    t: int,
    h: int,
) -> bool {
    &&& 0 <= p < nodes.len() && nodes[p].tag == Some("propstat"@)
    &&& status_says(nodes, p, " 200 "@)
    &&& is_first_under(nodes, q, p, "prop"@)
    &&& is_first_under(nodes, t, q, name)
    &&& 0 <= h < nodes.len() && nodes[h].tag == Some("href"@) && is_inside(nodes, h, t)
    &&& forall|i: int|
        0 <= i < h && (#[trigger] nodes[i]).tag == Some("href"@) ==> !is_inside(nodes, i, t)
    &&& nodes[h].text is Some
}

/// The propstat `p` inside the response `r` has `value` for the property `name`.
pub open spec fn offers(
    nodes: Seq<XmlNodeV>,
    r: int,
    p: int,
    name: Seq<char>,
    value: Seq<char>,
) -> bool {
    &&& 0 <= r < nodes.len() && nodes[r].tag == Some("response"@)
    &&& is_inside(nodes, p, r)
    &&& exists|q: int, t: int, h: int| #[trigger]
        is_property_href(nodes, p, name, q, t, h) && value == trimmed(nodes[h].text->Some_0)
}

proof fn lemma_href_below(nodes: Seq<XmlNodeV>, t: nat, i: nat)
    requires
        i <= nodes.len(),
    ensures
        i <= href_below(nodes, t, i) <= nodes.len(),
        href_below(nodes, t, i) < nodes.len() ==> nodes[href_below(nodes, t, i) as int].tag == Some(
            "href"@,
        ) && is_inside(nodes, href_below(nodes, t, i) as int, t as int),
        forall|j: int|
            i <= j < href_below(nodes, t, i) && (#[trigger] nodes[j]).tag == Some("href"@)
                ==> !is_inside(nodes, j, t as int),
    decreases nodes.len() - i,
{
    if i < nodes.len() {
        lemma_inside(nodes, i, t);
        if !(within(nodes, i, t) && tagged("href"@)(nodes[i as int])) {
            lemma_href_below(nodes, t, i + 1);
        }
    }
}

proof fn lemma_propstat_href(nodes: Seq<XmlNodeV>, p: int, name: Seq<char>, value: Seq<char>)
    requires
        0 <= p < nodes.len(),
        nodes[p].tag == Some("propstat"@),
    ensures
        (propstat_href(nodes, p, name) == Some(value)) == (exists|q: int, t: int, h: int|
            #[trigger] is_property_href(nodes, p, name, q, t, h) && value == trimmed(
                nodes[h].text->Some_0,
            )),
{
    let q = child(nodes, p, "prop"@);
    lemma_status(nodes, p, " 200 "@);
    lemma_child(nodes, p, "prop"@);
    let t = child(nodes, q, name);
    lemma_child(nodes, q, name);
    lemma_href_below(nodes, t as nat, 0);
    let h = href_below(nodes, t as nat, 0) as int;
    if propstat_href(nodes, p, name) == Some(value) {
        assert(is_property_href(nodes, p, name, q, t, h));
    }
    if exists|q: int, t: int, h: int| #[trigger]
        is_property_href(nodes, p, name, q, t, h) && value == trimmed(nodes[h].text->Some_0) {
        let (q2, t2, h2) = choose|q: int, t: int, h: int| #[trigger]
            is_property_href(nodes, p, name, q, t, h) && value == trimmed(nodes[h].text->Some_0);
        assert(q2 == q);
        assert(t2 == t);
        assert(h2 == h) by {
            if h2 < h {
                assert(nodes[h2].tag == Some("href"@));
            } else if h < h2 {
                assert(nodes[h].tag == Some("href"@));
            }
        }
    }
}

proof fn lemma_offers(nodes: Seq<XmlNodeV>, r: nat, p: nat, name: Seq<char>, value: Seq<char>)
    requires
        r < nodes.len(),
        p < nodes.len(),
    ensures
        offers(nodes, r as int, p as int, name, value) == (tagged("response"@)(nodes[r as int])
            && within(nodes, p, r) && tagged("propstat"@)(nodes[p as int]) && propstat_href(
            nodes,
            p as int,
            name,
        ) == Some(value)),
{
    lemma_inside(nodes, p, r);
    if tagged("propstat"@)(nodes[p as int]) {
        lemma_propstat_href(nodes, p as int, name, value);
    }
}

proof fn lemma_response_property(nodes: Seq<XmlNodeV>, r: nat, name: Seq<char>, i: nat)
    requires
        r < nodes.len(),
        i <= nodes.len(),
        tagged("response"@)(nodes[r as int]),
    ensures
        match response_property(nodes, r, name, i) {
            Some(value) => exists|p: int|
                {
                    &&& i <= p
                    &&& #[trigger] offers(nodes, r as int, p, name, value)
                    &&& forall|p2: int, v2: Seq<char>|
                        i <= p2 < p ==> !(#[trigger] offers(nodes, r as int, p2, name, v2))
                },
            None => forall|p2: int, v2: Seq<char>|
                i <= p2 ==> !(#[trigger] offers(nodes, r as int, p2, name, v2)),
        },
    decreases nodes.len() - i,
{
    if i < nodes.len() {
        let here = propstat_href(nodes, i as int, name);
        if within(nodes, i, r) && tagged("propstat"@)(nodes[i as int]) && here is Some {
            lemma_offers(nodes, r, i, name, here->Some_0);
            assert(offers(nodes, r as int, i as int, name, here->Some_0));
        } else {
            lemma_response_property(nodes, r, name, i + 1);
            assert forall|v2: Seq<char>| !(#[trigger] offers(
                nodes,
                r as int,
                i as int,
                name,
                v2,
            )) by {
                lemma_offers(nodes, r, i, name, v2);
            }
            match response_property(nodes, r, name, i + 1) {
                Some(value) => {
                    let p = choose|p: int|
                        {
                            &&& i + 1 <= p
                            &&& #[trigger] offers(nodes, r as int, p, name, value)
                            &&& forall|p2: int, v2: Seq<char>|
                                i + 1 <= p2 < p ==> !(#[trigger] offers(
                                    nodes,
                                    r as int,
                                    p2,
                                    name,
                                    v2,
                                ))
                        };
                    assert(offers(nodes, r as int, p, name, value));
                },
                None => {},
            }
        }
    }
}

/// The value is that of the first propstat, in the first response, that has one; none has
/// one from `i` on where there is no value.
pub open spec fn is_first_offer(
    nodes: Seq<XmlNodeV>,
    name: Seq<char>,
    value: Seq<char>,
    r: int,
    p: int,
    i: int,
) -> bool {
    &&& i <= r && offers(nodes, r, p, name, value)
    &&& forall|r2: int, p2: int, v2: Seq<char>|
        i <= r2 && #[trigger] offers(nodes, r2, p2, name, v2) ==> r < r2 || (r == r2 && p <= p2)
}

proof fn lemma_first_property(nodes: Seq<XmlNodeV>, name: Seq<char>, i: nat)
    requires
        i <= nodes.len(),
    ensures
        match first_property(nodes, name, i) {
            Some(value) => exists|r: int, p: int|
                is_first_offer(nodes, name, value, r, p, i as int),
            None => forall|r: int, p: int, v: Seq<char>|
                i <= r ==> !(#[trigger] offers(nodes, r, p, name, v)),
        },
    decreases nodes.len() - i,
{
    if i < nodes.len() {
        let here = response_property(nodes, i, name, 0);
        if tagged("response"@)(nodes[i as int]) {
            lemma_response_property(nodes, i, name, 0);
        }
        if tagged("response"@)(nodes[i as int]) && here is Some {
            let value = here->Some_0;
            let p = choose|p: int|
                {
                    &&& 0 <= p
                    &&& #[trigger] offers(nodes, i as int, p, name, value)
                    &&& forall|p2: int, v2: Seq<char>|
                        0 <= p2 < p ==> !(#[trigger] offers(nodes, i as int, p2, name, v2))
                };
            assert forall|r2: int, p2: int, v2: Seq<char>|
                i <= r2 && #[trigger] offers(nodes, r2, p2, name, v2) implies i < r2 || (i == r2
                && p <= p2) by {
                if r2 == i && p2 < p {
                    assert(0 <= p2);
                    assert(!offers(nodes, i as int, p2, name, v2));
                }
            }
            assert(is_first_offer(nodes, name, value, i as int, p, i as int));
        } else {
            lemma_first_property(nodes, name, i + 1);
            assert forall|p: int, v: Seq<char>| !(#[trigger] offers(
                nodes,
                i as int,
                p,
                name,
                v,
            )) by {
                if offers(nodes, i as int, p, name, v) {
                    assert(0 <= p);
                }
            }
            match first_property(nodes, name, i + 1) {
                Some(value) => {
                    let next = i + 1;
                    let (r, p) = choose|r: int, p: int|
                        is_first_offer(nodes, name, value, r, p, next as int);
                    assert forall|r2: int, p2: int, v2: Seq<char>|
                        i <= r2 && #[trigger] offers(nodes, r2, p2, name, v2) implies r < r2 || (r
                        == r2 && p <= p2) by {
                        assert(r2 != i);
                    }
                    assert(is_first_offer(nodes, name, value, r, p, i as int));
                },
                None => {},
            }
        }
    }
}

/// The href of a property is that of the first response, and in it of the first successful
/// propstat, in whose prop the property stands with an href inside; and there is none only
/// where no response has one.
pub proof fn law_property_is_told(nodes: Seq<XmlNodeV>, name: Seq<char>)
    ensures
        match first_property(nodes, name, 0) {
            Some(value) => exists|r: int, p: int| is_first_offer(nodes, name, value, r, p, 0),
            None => forall|r: int, p: int, v: Seq<char>| !(#[trigger] offers(nodes, r, p, name, v)),
        },
{
    lemma_first_property(nodes, name, 0);
}

// --- Answers as text ---

/// An answer that is a document is read by its nodes, against the given address; one that is
/// none is refused.
pub proof fn law_answers_are_read(xml: Seq<char>, base: Seq<char>, name: Seq<char>)
    ensures
        match parsed_xml(xml) {
            Ok(nodes) => {
                &&& delta_in(xml, base) == Ok::<SyncDeltaV, FailureV>(delta_of(nodes, base))
                &&& calendars_in(xml, base) == Ok::<Seq<CalendarV>, FailureV>(
                    calendars_among(nodes, base, nodes.len()),
                )
                &&& match first_property(nodes, name, 0) {
                    Some(h) => href_property(xml, name) == Ok::<Seq<char>, FailureV>(h),
                    None => href_property(xml, name) is Err,
                }
            },
            Err(_) => delta_in(xml, base) is Err && calendars_in(xml, base) is Err && href_property(
                xml,
                name,
            ) is Err,
        },
{
}

} // verus!
