//! Reading the answers of the forge's own advisory index.
use crate::advisory::{advisory_views, Advisory, AdvisoryView};
use crate::json::{items_of, json_views, list_member, opt_text_member, Json, JsonTree, Malformed};
use crate::text::{opt_text, texts};
use vstd::prelude::*;

verus! {

/// Whether `t` is an object whose `vulnerable_version_range` is a text
/// where it has one.
pub open spec fn vulnerability_ok(t: JsonTree) -> bool {
    t is Object && opt_text_member(t, "vulnerable_version_range"@) is Some
}

/// `v`, or `other` where there is none.
pub open spec fn text_or(v: Option<Seq<char>>, other: Seq<char>) -> Seq<char> {
    match v {
        Some(s) => s,
        None => other,
    }
}

/// The advisory that one record of the index stands for: its `ghsa_id`,
/// `summary`, `severity` and `html_url`, with `unknown` for a missing id
/// or severity and the empty text for a missing summary or URL, no
/// aliases, and the version range of its first vulnerability. `None`
/// where the record has not the shape of the index's records.
pub open spec fn record_advisory(t: JsonTree) -> Option<AdvisoryView> {
    if t is Object && opt_text_member(t, "ghsa_id"@) is Some && opt_text_member(t, "summary"@)
        is Some && opt_text_member(t, "severity"@) is Some && opt_text_member(t, "html_url"@)
        is Some && list_member(t, "vulnerabilities"@) is Some && (forall|i: int|
        0 <= i < list_member(t, "vulnerabilities"@)->0.len() ==> vulnerability_ok(
            #[trigger] list_member(t, "vulnerabilities"@)->0[i],
        )) {
        let vulns = list_member(t, "vulnerabilities"@)->0;
        Some(
            AdvisoryView {
                id: text_or(opt_text_member(t, "ghsa_id"@)->0, "unknown"@),
                aliases: Seq::empty(),
                summary: text_or(opt_text_member(t, "summary"@)->0, Seq::empty()),
                severity: text_or(opt_text_member(t, "severity"@)->0, "unknown"@),
                url: text_or(opt_text_member(t, "html_url"@)->0, Seq::empty()),
                affected_range: if vulns.len() > 0 {
                    opt_text_member(vulns[0], "vulnerable_version_range"@)->0
                } else {
                    None
                },
                source: "GHSA"@,
            },
        )
    } else {
        None
    }
}

/// The advisories of an answer of the index: one for each record, in
/// order. `None` where the answer is no list or a record no record.
pub open spec fn ghsa_advisories(t: JsonTree) -> Option<Seq<AdvisoryView>> {
    match t {
        JsonTree::List(items) => if forall|i: int|
            0 <= i < items.len() ==> record_advisory(#[trigger] items[i]) is Some {
            Some(Seq::new(items.len(), |i: int| record_advisory(items[i])->0))
        } else {
            None
        },
        _ => None,
    }
}

fn or_text(v: Option<String>, other: &str) -> (r: String)
    ensures
        r@ == text_or(opt_text(v), other@),
{
    match v {
        Some(s) => s,
        None => other.to_owned(),
    }
}

fn read_record(j: &Json) -> (r: Result<Advisory, Malformed>)
    ensures
        match r {
            Ok(a) => record_advisory(j@) == Some(a@),
            Err(_) => record_advisory(j@) is None,
        },
{
    if !j.is_object() {
        return Err(Malformed);
    }
    let id = j.opt_text("ghsa_id")?;
    let summary = j.opt_text("summary")?;
    let severity = j.opt_text("severity")?;
    let url = j.opt_text("html_url")?;
    let vulns = j.list("vulnerabilities")?;
    let ghost vv = items_of(vulns);
    let mut affected_range: Option<String> = None;
    match vulns {
        None => {},
        Some(list) => {
            let mut i: usize = 0;
            while i < list.len()
                invariant
                    i <= list@.len(),
                    vv == json_views(list@),
                    j@ is Object,
                    list_member(j@, "vulnerabilities"@) == Some(vv),
                    forall|k: int| 0 <= k < i ==> vulnerability_ok(#[trigger] vv[k]),
                    opt_text(affected_range) == (if i > 0 {
                        opt_text_member(vv[0], "vulnerable_version_range"@)->0
                    } else {
                        None
                    }),
                decreases list@.len() - i,
            {
                assert(vv[i as int] == list@[i as int]@);
                if !list[i].is_object() {
                    assert(!vulnerability_ok(vv[i as int]));
                    return Err(Malformed);
                }
                match list[i].opt_text("vulnerable_version_range") {
                    Ok(range) => {
                        if i == 0 {
                            affected_range = range;
                        }
                    },
                    Err(e) => {
                        assert(!vulnerability_ok(vv[i as int]));
                        return Err(e);
                    },
                }
                i = i + 1;
            }
        },
    }
    let a = Advisory {
        id: or_text(id, "unknown"),
        aliases: Vec::new(),
        summary: or_text(summary, ""),
        severity: or_text(severity, "unknown"),
        url: or_text(url, ""),
        affected_range,
        source: "GHSA".to_owned(),
    };
    proof {
        reveal_strlit("");
        assert(""@ =~= Seq::<char>::empty());
        assert(a@.aliases =~= Seq::<Seq<char>>::empty());
    }
    Ok(a)
}

/// Reads the answer of the index to one query: the advisories of its
/// records, in order. Fails where the answer is no list of records.
pub fn parse_advisories(json: &Json) -> (r: Result<Vec<Advisory>, Malformed>)
    ensures
        match r {
            Ok(v) => ghsa_advisories(json@) == Some(advisory_views(v@)),
            Err(_) => ghsa_advisories(json@) is None,
        },
{
    let list = match json.as_list() {
        Some(list) => list,
        None => {
            return Err(Malformed);
        },
    };
    let ghost iv = json_views(list@);
    let mut out: Vec<Advisory> = Vec::new();
    let mut i: usize = 0;
    while i < list.len()
        invariant
            i <= list@.len(),
            iv == json_views(list@),
            json@ == JsonTree::List(iv),
            out@.len() == i,
            forall|k: int| 0 <= k < i ==> record_advisory(#[trigger] iv[k]) == Some(out@[k]@),
        decreases list@.len() - i,
    {
        assert(iv[i as int] == list@[i as int]@);
        match read_record(&list[i]) {
            Ok(a) => {
                out.push(a);
            },
            Err(e) => {
                assert(record_advisory(iv[i as int]) is None);
                return Err(e);
            },
        }
        i = i + 1;
    }
    assert(advisory_views(out@) =~= Seq::new(iv.len(), |i: int| record_advisory(iv[i])->0));
    Ok(out)
}

} // verus!
