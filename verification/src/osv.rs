//! Reading the answers of the public vulnerability database.
use crate::advisory::{advisory_views, Advisory, AdvisoryView};
use crate::json::{
    json_views, list_member, member, opt_text_member, text_member, text_member_or_empty, Json,
    JsonTree, Malformed,
};
use crate::text::{join, joined, lower, lowered, opt_text, same_text, texts};
use vstd::prelude::*;

verus! {

/// One event of a version range: where the vulnerability came in, where
/// it was fixed, or the last version that has it.
#[derive(Debug)]
pub struct OsvEvent {
    pub introduced: Option<String>,
    pub fixed: Option<String>,
    pub last_affected: Option<String>,
}

/// Mathematical value of an [`OsvEvent`].
pub struct OsvEventView {
    pub introduced: Option<Seq<char>>,
    pub fixed: Option<Seq<char>>,
    pub last_affected: Option<Seq<char>>,
}

impl View for OsvEvent {
    type V = OsvEventView;

    open spec fn view(&self) -> OsvEventView {
        OsvEventView {
            introduced: opt_text(self.introduced),
            fixed: opt_text(self.fixed),
            last_affected: opt_text(self.last_affected),
        }
    }
}

/// The views of a list of events.
pub open spec fn event_views(v: Seq<OsvEvent>) -> Seq<OsvEventView> {
    Seq::new(v.len(), |i: int| v[i]@)
}

/// The constraints that one event states: `>= v` for a version `v` other
/// than `0` at which the vulnerability came in, `< v` for a fix, `<= v`
/// for a last affected version, in this order.
pub open spec fn event_parts(e: OsvEventView) -> Seq<Seq<char>> {
    let a: Seq<Seq<char>> = match e.introduced {
        Some(v) => if v == "0"@ {
            Seq::empty()
        } else {
            seq![">= "@ + v]
        },
        None => Seq::empty(),
    };
    let b: Seq<Seq<char>> = match e.fixed {
        Some(v) => seq!["< "@ + v],
        None => Seq::empty(),
    };
    let c: Seq<Seq<char>> = match e.last_affected {
        Some(v) => seq!["<= "@ + v],
        None => Seq::empty(),
    };
    a + b + c
}

/// The constraints of a list of events, event by event.
pub open spec fn range_parts(events: Seq<OsvEventView>) -> Seq<Seq<char>>
    decreases events.len(),
{
    if events.len() == 0 {
        Seq::empty()
    } else {
        range_parts(events.drop_last()) + event_parts(events.last())
    }
}

/// The range that a list of events describes: its constraints, joined by
/// a comma and a space.
pub open spec fn range_text(events: Seq<OsvEventView>) -> Seq<char> {
    joined(range_parts(events), ", "@)
}

fn prefixed(prefix: &str, v: &str) -> (r: String)
    ensures
        r@ == prefix@ + v@,
{
    let mut r = prefix.to_owned();
    r.append(v);
    r
}

/// Formats the events of a version range as a human-readable constraint.
pub fn format_range_events(events: &Vec<OsvEvent>) -> (r: String)
    ensures
        r@ == range_text(event_views(events@)),
{
    let ghost evs = event_views(events@);
    let mut parts: Vec<String> = Vec::new();
    let mut i: usize = 0;
    proof {
        assert(evs.subrange(0, 0) =~= Seq::<OsvEventView>::empty());
        assert(texts(parts@) =~= Seq::<Seq<char>>::empty());
    }
    while i < events.len()
        invariant
            i <= events@.len(),
            evs == event_views(events@),
            texts(parts@) == range_parts(evs.subrange(0, i as int)),
        decreases events@.len() - i,
    {
        let ghost before = texts(parts@);
        let e = &events[i];
        proof {
            let next = evs.subrange(0, i + 1);
            assert(next.drop_last() =~= evs.subrange(0, i as int));
            assert(next.last() == e@);
        }
        match &e.introduced {
            Some(v) => {
                if !same_text(v.as_str(), "0") {
                    parts.push(prefixed(">= ", v.as_str()));
                }
            },
            None => {},
        }
        let ghost mid1 = texts(parts@);
        match &e.fixed {
            Some(v) => {
                parts.push(prefixed("< ", v.as_str()));
            },
            None => {},
        }
        let ghost mid2 = texts(parts@);
        match &e.last_affected {
            Some(v) => {
                parts.push(prefixed("<= ", v.as_str()));
            },
            None => {},
        }
        proof {
            let a: Seq<Seq<char>> = match e@.introduced {
                Some(v) => if v == "0"@ {
                    Seq::empty()
                } else {
                    seq![">= "@ + v]
                },
                None => Seq::empty(),
            };
            let b: Seq<Seq<char>> = match e@.fixed {
                Some(v) => seq!["< "@ + v],
                None => Seq::empty(),
            };
            let c: Seq<Seq<char>> = match e@.last_affected {
                Some(v) => seq!["<= "@ + v],
                None => Seq::empty(),
            };
            assert(mid1 =~= before + a);
            assert(mid2 =~= mid1 + b);
            assert(texts(parts@) =~= mid2 + c);
            assert(texts(parts@) =~= before + (a + b + c));
        }
        i = i + 1;
    }
    proof {
        assert(evs.subrange(0, evs.len() as int) =~= evs);
    }
    join(&parts, ", ")
}

/// The event that an object of the answer stands for; `None` where it is
/// no object or one of its three members is neither missing, `null` nor a
/// text.
pub open spec fn event_of(t: JsonTree) -> Option<OsvEventView> {
    if t is Object && opt_text_member(t, "introduced"@) is Some && opt_text_member(t, "fixed"@)
        is Some && opt_text_member(t, "last_affected"@) is Some {
        Some(
            OsvEventView {
                introduced: opt_text_member(t, "introduced"@)->0,
                fixed: opt_text_member(t, "fixed"@)->0,
                last_affected: opt_text_member(t, "last_affected"@)->0,
            },
        )
    } else {
        None
    }
}

/// The events of a list; `None` where one of them is none.
pub open spec fn events_of(items: Seq<JsonTree>) -> Option<Seq<OsvEventView>> {
    if forall|i: int| 0 <= i < items.len() ==> event_of(#[trigger] items[i]) is Some {
        Some(Seq::new(items.len(), |i: int| event_of(items[i])->0))
    } else {
        None
    }
}

/// The events of a range object.
pub open spec fn range_of(t: JsonTree) -> Option<Seq<OsvEventView>> {
    if t is Object {
        match list_member(t, "events"@) {
            Some(items) => events_of(items),
            None => None,
        }
    } else {
        None
    }
}

/// Whether `t` is an object whose `ranges`, where it has any, are ranges.
pub open spec fn affected_ok(t: JsonTree) -> bool {
    &&& t is Object
    &&& list_member(t, "ranges"@) matches Some(ranges)
    &&& forall|i: int| 0 <= i < ranges.len() ==> range_of(#[trigger] ranges[i]) is Some
}

/// The range of the first range of the first affected entry, where there
/// is one.
pub open spec fn affected_range_of(affected: Seq<JsonTree>) -> Option<Seq<char>> {
    if affected.len() > 0 {
        let ranges = list_member(affected[0], "ranges"@)->0;
        if ranges.len() > 0 {
            Some(range_text(range_of(ranges[0])->0))
        } else {
            None
        }
    } else {
        None
    }
}

/// Whether `t` is an object whose `type` and `url` are texts where it has them.
pub open spec fn reference_ok(t: JsonTree) -> bool {
    t is Object && opt_text_member(t, "type"@) is Some && opt_text_member(t, "url"@) is Some
}

/// The first reference at or behind `from` whose type is `kind`.
pub open spec fn first_of_type(refs: Seq<JsonTree>, kind: Seq<char>, from: int) -> Option<JsonTree>
    decreases refs.len() - from,
{
    if from < 0 || from >= refs.len() {
        None
    } else if opt_text_member(refs[from], "type"@) == Some(Some(kind)) {
        Some(refs[from])
    } else {
        first_of_type(refs, kind, from + 1)
    }
}

/// The URL of an advisory: that of the first reference of type
/// `ADVISORY`; where there is none, that of the first of type `WEB`; the
/// empty text where neither is there or the one chosen has no URL.
pub open spec fn url_of(refs: Seq<JsonTree>) -> Seq<char> {
    let chosen = match first_of_type(refs, "ADVISORY"@, 0) {
        Some(r) => Some(r),
        None => first_of_type(refs, "WEB"@, 0),
    };
    match chosen {
        Some(r) => match opt_text_member(r, "url"@) {
            Some(Some(u)) => u,
            _ => Seq::empty(),
        },
        None => Seq::empty(),
    }
}

/// The severity of a vulnerability: `database_specific.severity` in lower
/// case, `unknown` where it is missing; `None` where `database_specific`
/// is no object or its severity no text.
pub open spec fn severity_of(t: JsonTree) -> Option<Seq<char>> {
    match member(t, "database_specific"@) {
        None => Some("unknown"@),
        Some(JsonTree::Null) => Some("unknown"@),
        Some(db) => if db is Object {
            match opt_text_member(db, "severity"@) {
                Some(Some(s)) => Some(lowered(s)),
                Some(None) => Some("unknown"@),
                None => None,
            }
        } else {
            None
        },
    }
}

/// The texts of a list of text nodes; `None` where one is no text.
pub open spec fn texts_of(items: Seq<JsonTree>) -> Option<Seq<Seq<char>>> {
    if forall|i: int| 0 <= i < items.len() ==> (#[trigger] items[i]) is Text {
        Some(Seq::new(items.len(), |i: int| items[i]->Text_0))
    } else {
        None
    }
}

/// The advisory that one vulnerability of the answer stands for; `None`
/// where the vulnerability has not the shape of the database's records.
pub open spec fn vuln_advisory(t: JsonTree) -> Option<AdvisoryView> {
    if t is Object && text_member(t, "id"@) is Some && list_member(t, "aliases"@) is Some
        && texts_of(list_member(t, "aliases"@)->0) is Some && text_member_or_empty(
        t,
        "summary"@,
    ) is Some && list_member(t, "references"@) is Some && (forall|i: int|
        0 <= i < list_member(t, "references"@)->0.len() ==> reference_ok(
            #[trigger] list_member(t, "references"@)->0[i],
        )) && list_member(t, "affected"@) is Some && (forall|i: int|
        0 <= i < list_member(t, "affected"@)->0.len() ==> affected_ok(
            #[trigger] list_member(t, "affected"@)->0[i],
        )) && severity_of(t) is Some {
        Some(
            AdvisoryView {
                id: text_member(t, "id"@)->0,
                aliases: texts_of(list_member(t, "aliases"@)->0)->0,
                summary: text_member_or_empty(t, "summary"@)->0,
                severity: severity_of(t)->0,
                url: url_of(list_member(t, "references"@)->0),
                affected_range: affected_range_of(list_member(t, "affected"@)->0),
                source: "OSV"@,
            },
        )
    } else {
        None
    }
}

/// The advisories of an answer of the database: one for each entry of
/// `vulns`, in order; none where `vulns` is missing. `None` where the
/// answer is no object, `vulns` no list, or an entry no vulnerability.
pub open spec fn osv_advisories(t: JsonTree) -> Option<Seq<AdvisoryView>> {
    if t is Object && list_member(t, "vulns"@) is Some && (forall|i: int|
        0 <= i < list_member(t, "vulns"@)->0.len() ==> vuln_advisory(
            #[trigger] list_member(t, "vulns"@)->0[i],
        ) is Some) {
        Some(
            Seq::new(
                list_member(t, "vulns"@)->0.len(),
                |i: int| vuln_advisory(list_member(t, "vulns"@)->0[i])->0,
            ),
        )
    } else {
        None
    }
}

fn read_event(j: &Json) -> (r: Result<OsvEvent, Malformed>)
    ensures
        match r {
            Ok(e) => event_of(j@) == Some(e@),
            Err(_) => event_of(j@) is None,
        },
{
    if !j.is_object() {
        return Err(Malformed);
    }
    let introduced = j.opt_text("introduced")?;
    let fixed = j.opt_text("fixed")?;
    let last_affected = j.opt_text("last_affected")?;
    Ok(OsvEvent { introduced, fixed, last_affected })
}

fn read_events(items: Option<&Vec<Json>>) -> (r: Result<Vec<OsvEvent>, Malformed>)
    ensures
        match r {
            Ok(v) => events_of(crate::json::items_of(items)) == Some(event_views(v@)),
            Err(_) => events_of(crate::json::items_of(items)) is None,
        },
{
    let ghost iv = crate::json::items_of(items);
    let mut out: Vec<OsvEvent> = Vec::new();
    match items {
        None => {
            assert(event_views(out@) =~= Seq::new(iv.len(), |i: int| event_of(iv[i])->0));
        },
        Some(list) => {
            let mut i: usize = 0;
            while i < list.len()
                invariant
                    i <= list@.len(),
                    iv == json_views(list@),
                    iv == crate::json::items_of(items),
                    out@.len() == i,
                    forall|k: int| 0 <= k < i ==> event_of(#[trigger] iv[k]) == Some(out@[k]@),
                decreases list@.len() - i,
            {
                assert(iv[i as int] == list@[i as int]@);
                match read_event(&list[i]) {
                    Ok(e) => {
                        out.push(e);
                    },
                    Err(e) => {
                        assert(event_of(iv[i as int]) is None);
                        return Err(e);
                    },
                }
                i = i + 1;
            }
            assert(event_views(out@) =~= Seq::new(iv.len(), |i: int| event_of(iv[i])->0));
        },
    }
    Ok(out)
}

fn read_range(j: &Json) -> (r: Result<Vec<OsvEvent>, Malformed>)
    ensures
        match r {
            Ok(v) => range_of(j@) == Some(event_views(v@)),
            Err(_) => range_of(j@) is None,
        },
{
    if !j.is_object() {
        return Err(Malformed);
    }
    let items = j.list("events")?;
    read_events(items)
}

/// Checks an affected entry; returns the range of its first range.
fn read_affected(j: &Json) -> (r: Result<Option<String>, Malformed>)
    ensures
        match r {
            Ok(v) => affected_ok(j@) && opt_text(v) == (if list_member(j@, "ranges"@)->0.len()
                > 0 {
                Some(range_text(range_of(list_member(j@, "ranges"@)->0[0])->0))
            } else {
                None
            }),
            Err(_) => !affected_ok(j@),
        },
{
    if !j.is_object() {
        return Err(Malformed);
    }
    let ranges = j.list("ranges")?;
    let ghost rv = crate::json::items_of(ranges);
    let mut first: Option<String> = None;
    match ranges {
        None => {},
        Some(list) => {
            let mut i: usize = 0;
            while i < list.len()
                invariant
                    i <= list@.len(),
                    rv == json_views(list@),
                    rv == crate::json::items_of(ranges),
                    j@ is Object,
                    list_member(j@, "ranges"@) == Some(rv),
                    forall|k: int| 0 <= k < i ==> range_of(#[trigger] rv[k]) is Some,
                    opt_text(first) == (if i > 0 {
                        Some(range_text(range_of(rv[0])->0))
                    } else {
                        None
                    }),
                decreases list@.len() - i,
            {
                assert(rv[i as int] == list@[i as int]@);
                match read_range(&list[i]) {
                    Ok(events) => {
                        if i == 0 {
                            first = Some(format_range_events(&events));
                        }
                    },
                    Err(e) => {
                        assert(range_of(rv[i as int]) is None);
                        return Err(e);
                    },
                }
                i = i + 1;
            }
        },
    }
    Ok(first)
}

fn read_affected_list(items: Option<&Vec<Json>>) -> (r: Result<Option<String>, Malformed>)
    ensures
        match r {
            Ok(v) => (forall|i: int|
                0 <= i < crate::json::items_of(items).len() ==> affected_ok(
                    #[trigger] crate::json::items_of(items)[i],
                )) && opt_text(v) == affected_range_of(crate::json::items_of(items)),
            Err(_) => !(forall|i: int|
                0 <= i < crate::json::items_of(items).len() ==> affected_ok(
                    #[trigger] crate::json::items_of(items)[i],
                )),
        },
{
    let ghost av = crate::json::items_of(items);
    let mut first: Option<String> = None;
    match items {
        None => {},
        Some(list) => {
            let mut i: usize = 0;
            while i < list.len()
                invariant
                    i <= list@.len(),
                    av == json_views(list@),
                    av == crate::json::items_of(items),
                    forall|k: int| 0 <= k < i ==> affected_ok(#[trigger] av[k]),
                    opt_text(first) == (if i > 0 {
                        affected_range_of(av)
                    } else {
                        None
                    }),
                decreases list@.len() - i,
            {
                assert(av[i as int] == list@[i as int]@);
                match read_affected(&list[i]) {
                    Ok(range) => {
                        if i == 0 {
                            first = range;
                        }
                    },
                    Err(e) => {
                        assert(!affected_ok(av[i as int]));
                        return Err(e);
                    },
                }
                i = i + 1;
            }
        },
    }
    Ok(first)
}

/// Checks the references; returns the URL of the one that counts.
fn read_references(items: Option<&Vec<Json>>) -> (r: Result<String, Malformed>)
    ensures
        match r {
            Ok(v) => (forall|i: int|
                0 <= i < crate::json::items_of(items).len() ==> reference_ok(
                    #[trigger] crate::json::items_of(items)[i],
                )) && v@ == url_of(crate::json::items_of(items)),
            Err(_) => !(forall|i: int|
                0 <= i < crate::json::items_of(items).len() ==> reference_ok(
                    #[trigger] crate::json::items_of(items)[i],
                )),
        },
{
    let ghost rv = crate::json::items_of(items);
    let mut advisory: Option<Option<String>> = None;
    let mut web: Option<Option<String>> = None;
    match items {
        None => {},
        Some(list) => {
            let mut i: usize = 0;
            while i < list.len()
                invariant
                    i <= list@.len(),
                    rv == json_views(list@),
                    rv == crate::json::items_of(items),
                    forall|k: int| 0 <= k < i ==> reference_ok(#[trigger] rv[k]),
                    match advisory {
                        Some(u) => first_of_type(rv, "ADVISORY"@, 0) is Some && opt_text_member(
                            first_of_type(rv, "ADVISORY"@, 0)->0,
                            "url"@,
                        ) == Some(opt_text(u)),
                        None => first_of_type(rv, "ADVISORY"@, 0) == first_of_type(
                            rv,
                            "ADVISORY"@,
                            i as int,
                        ),
                    },
                    match web {
                        Some(u) => first_of_type(rv, "WEB"@, 0) is Some && opt_text_member(
                            first_of_type(rv, "WEB"@, 0)->0,
                            "url"@,
                        ) == Some(opt_text(u)),
                        None => first_of_type(rv, "WEB"@, 0) == first_of_type(
                            rv,
                            "WEB"@,
                            i as int,
                        ),
                    },
                decreases list@.len() - i,
            {
                assert(rv[i as int] == list@[i as int]@);
                let item = &list[i];
                if !item.is_object() {
                    assert(!reference_ok(rv[i as int]));
                    return Err(Malformed);
                }
                let kind = match item.opt_text("type") {
                    Ok(k) => k,
                    Err(e) => {
                        assert(!reference_ok(rv[i as int]));
                        return Err(e);
                    },
                };
                let url = match item.opt_text("url") {
                    Ok(u) => u,
                    Err(e) => {
                        assert(!reference_ok(rv[i as int]));
                        return Err(e);
                    },
                };
                proof {
                    reveal_strlit("ADVISORY");
                    reveal_strlit("WEB");
                    assert("ADVISORY"@.len() != "WEB"@.len());
                }
                match &kind {
                    Some(k) => {
                        if same_text(k.as_str(), "ADVISORY") {
                            if advisory.is_none() {
                                advisory = Some(url);
                            }
                        } else if same_text(k.as_str(), "WEB") {
                            if web.is_none() {
                                web = Some(url);
                            }
                        }
                    },
                    None => {},
                }
                i = i + 1;
            }
        },
    }
    let chosen = match advisory {
        Some(u) => Some(u),
        None => web,
    };
    match chosen {
        Some(Some(u)) => Ok(u),
        _ => Ok(String::new()),
    }
}

fn read_severity(j: &Json) -> (r: Result<String, Malformed>)
    ensures
        match r {
            Ok(v) => severity_of(j@) == Some(v@),
            Err(_) => severity_of(j@) is None,
        },
{
    match j.get("database_specific") {
        None => Ok("unknown".to_owned()),
        Some(db) => {
            if db.is_null() {
                return Ok("unknown".to_owned());
            }
            if !db.is_object() {
                return Err(Malformed);
            }
            match db.opt_text("severity")? {
                Some(s) => Ok(lower(s.as_str())),
                None => Ok("unknown".to_owned()),
            }
        },
    }
}

fn read_texts(items: Option<&Vec<Json>>) -> (r: Result<Vec<String>, Malformed>)
    ensures
        match r {
            Ok(v) => texts_of(crate::json::items_of(items)) == Some(texts(v@)),
            Err(_) => texts_of(crate::json::items_of(items)) is None,
        },
{
    let ghost iv = crate::json::items_of(items);
    let mut out: Vec<String> = Vec::new();
    match items {
        None => {
            assert(texts(out@) =~= Seq::new(iv.len(), |i: int| iv[i]->Text_0));
        },
        Some(list) => {
            let mut i: usize = 0;
            while i < list.len()
                invariant
                    i <= list@.len(),
                    iv == json_views(list@),
                    iv == crate::json::items_of(items),
                    out@.len() == i,
                    forall|k: int|
                        0 <= k < i ==> (#[trigger] iv[k]) is Text && iv[k]->Text_0 == out@[k]@,
                decreases list@.len() - i,
            {
                assert(iv[i as int] == list@[i as int]@);
                match list[i].as_str() {
                    Some(s) => {
                        out.push(s.to_owned());
                    },
                    None => {
                        assert(!(iv[i as int] is Text));
                        return Err(Malformed);
                    },
                }
                i = i + 1;
            }
            assert(texts(out@) =~= Seq::new(iv.len(), |i: int| iv[i]->Text_0));
        },
    }
    Ok(out)
}

fn read_vuln(j: &Json) -> (r: Result<Advisory, Malformed>)
    ensures
        match r {
            Ok(a) => vuln_advisory(j@) == Some(a@),
            Err(_) => vuln_advisory(j@) is None,
        },
{
    if !j.is_object() {
        return Err(Malformed);
    }
    let id = j.text("id")?;
    let aliases = read_texts(j.list("aliases")?)?;
    let summary = j.text_or_empty("summary")?;
    let url = read_references(j.list("references")?)?;
    let affected_range = read_affected_list(j.list("affected")?)?;
    let severity = read_severity(j)?;
    Ok(Advisory { id, aliases, summary, severity, url, affected_range, source: "OSV".to_owned() })
}

/// Reads the answer of the database to one query: the advisories of its
/// `vulns`, in order. Fails where the answer has not the shape of the
/// database's records.
pub fn parse_osv_response(json: &Json) -> (r: Result<Vec<Advisory>, Malformed>)
    ensures
        match r {
            Ok(v) => osv_advisories(json@) == Some(advisory_views(v@)),
            Err(_) => osv_advisories(json@) is None,
        },
{
    if !json.is_object() {
        return Err(Malformed);
    }
    let vulns = json.list("vulns")?;
    let ghost vv = crate::json::items_of(vulns);
    let mut out: Vec<Advisory> = Vec::new();
    match vulns {
        None => {},
        Some(list) => {
            let mut i: usize = 0;
            while i < list.len()
                invariant
                    i <= list@.len(),
                    vv == json_views(list@),
                    vv == crate::json::items_of(vulns),
                    json@ is Object,
                    list_member(json@, "vulns"@) == Some(vv),
                    out@.len() == i,
                    forall|k: int| 0 <= k < i ==> vuln_advisory(#[trigger] vv[k]) == Some(out@[k]@),
                decreases list@.len() - i,
            {
                assert(vv[i as int] == list@[i as int]@);
                match read_vuln(&list[i]) {
                    Ok(a) => {
                        out.push(a);
                    },
                    Err(e) => {
                        assert(vuln_advisory(vv[i as int]) is None);
                        return Err(e);
                    },
                }
                i = i + 1;
            }
        },
    }
    assert(advisory_views(out@) =~= Seq::new(vv.len(), |i: int| vuln_advisory(vv[i])->0));
    Ok(out)
}

} // verus!
