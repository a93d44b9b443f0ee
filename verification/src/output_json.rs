//! The JSON form of the result tree: which members a node has, and when
//! one is left out. The text itself is written by `serde_json`.
use crate::action_ref::{ActionRef, ActionRefView, RefType};
use crate::advisory::{advisory_views, Advisory, AdvisoryView};
use crate::deps::{report_views, DependencyReport, DependencyReportView};
use crate::json::{
    ascending_names, field_views, json_pretty_text, json_views, lemma_json_view, render_pretty,
    writable, Json, JsonField, JsonTree,
};
use crate::output::{
    ecosystem_names, lemma_node_view, node_views, ActionEntry, ActionEntryView, AuditNode,
    AuditNodeView,
};
use crate::scan::{ecosystem_name, opt_scan, Ecosystem, ScanResult, ScanResultView};
use crate::text::{differ_at, opt_text, text_less, texts};
use vstd::prelude::*;

verus! {

/// A text, or `null` where there is none.
pub open spec fn text_or_null(o: Option<Seq<char>>) -> JsonTree {
    match o {
        Some(s) => JsonTree::Text(s),
        None => JsonTree::Null,
    }
}

/// A list of texts.
pub open spec fn text_list(items: Seq<Seq<char>>) -> JsonTree {
    JsonTree::List(Seq::new(items.len(), |i: int| JsonTree::Text(items[i])))
}

/// The member `name`, where `present`; else nothing.
pub open spec fn member_if(present: bool, name: Seq<char>, value: JsonTree) -> Seq<
    (Seq<char>, JsonTree),
> {
    if present {
        seq![(name, value)]
    } else {
        Seq::empty()
    }
}

/// The object of an advisory. `aliases` is left out where there are none;
/// `affected_range` is `null` where there is none.
pub open spec fn advisory_json(a: AdvisoryView) -> JsonTree {
    JsonTree::Object(
        seq![("affected_range"@, text_or_null(a.affected_range))] + member_if(
            a.aliases.len() > 0,
            "aliases"@,
            text_list(a.aliases),
        ) + seq![
            ("id"@, JsonTree::Text(a.id)),
            ("severity"@, JsonTree::Text(a.severity)),
            ("source"@, JsonTree::Text(a.source)),
            ("summary"@, JsonTree::Text(a.summary)),
            ("url"@, JsonTree::Text(a.url)),
        ],
    )
}

/// The list of the objects of advisories.
pub open spec fn advisories_json(advs: Seq<AdvisoryView>) -> JsonTree {
    JsonTree::List(Seq::new(advs.len(), |i: int| advisory_json(advs[i])))
}

/// The object of a scan: the names of the ecosystems, and the language
/// or `null`.
pub open spec fn scan_json(s: ScanResultView) -> JsonTree {
    JsonTree::Object(
        seq![
            ("ecosystems"@, text_list(ecosystem_names(s.ecosystems))),
            ("primary_language"@, text_or_null(s.primary_language)),
        ],
    )
}

/// The object of a dependency report.
pub open spec fn report_json(r: DependencyReportView) -> JsonTree {
    JsonTree::Object(
        seq![
            ("advisories"@, advisories_json(r.advisories)),
            ("ecosystem"@, JsonTree::Text(ecosystem_name(r.ecosystem))),
            ("package"@, JsonTree::Text(r.package)),
            ("version"@, JsonTree::Text(r.version)),
        ],
    )
}

/// The list of the objects of dependency reports.
pub open spec fn reports_json(reports: Seq<DependencyReportView>) -> JsonTree {
    JsonTree::List(Seq::new(reports.len(), |i: int| report_json(reports[i])))
}

/// Lower-case name of a kind of ref.
pub open spec fn ref_type_name(t: RefType) -> Seq<char> {
    match t {
        RefType::Sha => "sha"@,
        RefType::Tag => "tag"@,
        RefType::Unknown => "unknown"@,
    }
}

/// The object of a node, given the objects of its children: the fields
/// of the action, with `null` for a missing path; the advisories, always;
/// and, each only where there is something to show, the commit, the scan,
/// the dependency vulnerabilities and the children.
pub open spec fn node_object(e: ActionEntryView, children: Seq<JsonTree>) -> JsonTree {
    JsonTree::Object(
        seq![("advisories"@, advisories_json(e.advisories))] + member_if(
            children.len() > 0,
            "children"@,
            JsonTree::List(children),
        ) + member_if(
            e.dep_vulnerabilities.len() > 0,
            "dep_vulnerabilities"@,
            reports_json(e.dep_vulnerabilities),
        ) + seq![
            ("git_ref"@, JsonTree::Text(e.action.git_ref)),
            ("owner"@, JsonTree::Text(e.action.owner)),
            ("path"@, text_or_null(e.action.path)),
            ("raw"@, JsonTree::Text(e.action.raw)),
            ("ref_type"@, JsonTree::Text(ref_type_name(e.action.ref_type))),
            ("repo"@, JsonTree::Text(e.action.repo)),
        ] + member_if(
            e.resolved_sha is Some,
            "resolved_sha"@,
            text_or_null(e.resolved_sha),
        ) + member_if(
            e.scan is Some,
            "scan"@,
            match e.scan {
                Some(s) => scan_json(s),
                None => JsonTree::Null,
            },
        ),
    )
}

/// The objects of the nodes of a forest, each with those of the nodes
/// under it.
pub open spec fn forest_json(f: Seq<AuditNodeView>) -> Seq<JsonTree>
    decreases f,
{
    if f.len() == 0 {
        Seq::empty()
    } else {
        forest_json(f.drop_last()).push(
            node_object(f.last().entry, forest_json(f.last().children)),
        )
    }
}

/// The JSON form of a result tree: the array of the objects of its roots.
pub open spec fn tree_json(f: Seq<AuditNodeView>) -> JsonTree {
    JsonTree::List(forest_json(f))
}

/// Whether every name of `fields` comes before `bound`.
pub open spec fn below(fields: Seq<(Seq<char>, JsonTree)>, bound: Seq<char>) -> bool {
    forall|i: int| 0 <= i < fields.len() ==> text_less((#[trigger] fields[i]).0, bound)
}

/// Whether every member of `fields` is writable.
pub open spec fn members_writable(fields: Seq<(Seq<char>, JsonTree)>) -> bool {
    forall|i: int| 0 <= i < fields.len() ==> writable((#[trigger] fields[i]).1)
}

/// Names that come before `a` come before what comes behind `a`.
proof fn lemma_raise(fields: Seq<(Seq<char>, JsonTree)>, a: Seq<char>, b: Seq<char>)
    requires
        forall|i: int|
            0 <= i < fields.len() ==> text_less((#[trigger] fields[i]).0, a) || fields[i].0 == a,
        text_less(a, b),
    ensures
        below(fields, b),
{
    assert forall|i: int| 0 <= i < fields.len() implies text_less(
        (#[trigger] fields[i]).0,
        b,
    ) by {
        if fields[i].0 != a {
            crate::order::lemma_text_transitive(fields[i].0, a, b);
        }
    }
}

/// Two texts that agree before position `k`, where the first holds the
/// smaller character, stand in order.
proof fn lemma_less_at(a: Seq<char>, b: Seq<char>, k: int)
    requires
        0 <= k < a.len(),
        k < b.len(),
        a.subrange(0, k) =~= b.subrange(0, k),
        (a[k] as int) < (b[k] as int),
    ensures
        text_less(a, b),
{
    assert(differ_at(a, b, k));
}

/// The names of the members of a node, in ascending order.
proof fn lemma_node_names()
    ensures
        text_less("advisories"@, "children"@),
        text_less("children"@, "dep_vulnerabilities"@),
        text_less("dep_vulnerabilities"@, "git_ref"@),
        text_less("git_ref"@, "owner"@),
        text_less("owner"@, "path"@),
        text_less("path"@, "raw"@),
        text_less("raw"@, "ref_type"@),
        text_less("ref_type"@, "repo"@),
        text_less("repo"@, "resolved_sha"@),
        text_less("resolved_sha"@, "scan"@),
{
    reveal_strlit("advisories");
    reveal_strlit("children");
    reveal_strlit("dep_vulnerabilities");
    reveal_strlit("git_ref");
    reveal_strlit("owner");
    reveal_strlit("path");
    reveal_strlit("raw");
    reveal_strlit("ref_type");
    reveal_strlit("repo");
    reveal_strlit("resolved_sha");
    reveal_strlit("scan");
    lemma_less_at("advisories"@, "children"@, 0);
    lemma_less_at("children"@, "dep_vulnerabilities"@, 0);
    lemma_less_at("dep_vulnerabilities"@, "git_ref"@, 0);
    lemma_less_at("git_ref"@, "owner"@, 0);
    lemma_less_at("owner"@, "path"@, 0);
    lemma_less_at("path"@, "raw"@, 0);
    lemma_less_at("raw"@, "ref_type"@, 1);
    lemma_less_at("ref_type"@, "repo"@, 2);
    lemma_less_at("repo"@, "resolved_sha"@, 2);
    lemma_less_at("resolved_sha"@, "scan"@, 0);
}

/// The names of the members of an advisory, a scan and a report, each in
/// ascending order.
proof fn lemma_other_names()
    ensures
        text_less("affected_range"@, "aliases"@),
        text_less("aliases"@, "id"@),
        text_less("id"@, "severity"@),
        text_less("severity"@, "source"@),
        text_less("source"@, "summary"@),
        text_less("summary"@, "url"@),
        text_less("ecosystems"@, "primary_language"@),
        text_less("advisories"@, "ecosystem"@),
        text_less("ecosystem"@, "package"@),
        text_less("package"@, "version"@),
{
    reveal_strlit("affected_range");
    reveal_strlit("aliases");
    reveal_strlit("id");
    reveal_strlit("severity");
    reveal_strlit("source");
    reveal_strlit("summary");
    reveal_strlit("url");
    reveal_strlit("ecosystems");
    reveal_strlit("primary_language");
    reveal_strlit("advisories");
    reveal_strlit("ecosystem");
    reveal_strlit("package");
    reveal_strlit("version");
    lemma_less_at("affected_range"@, "aliases"@, 1);
    lemma_less_at("aliases"@, "id"@, 0);
    lemma_less_at("id"@, "severity"@, 0);
    lemma_less_at("severity"@, "source"@, 1);
    lemma_less_at("source"@, "summary"@, 1);
    lemma_less_at("summary"@, "url"@, 0);
    lemma_less_at("ecosystems"@, "primary_language"@, 0);
    lemma_less_at("advisories"@, "ecosystem"@, 0);
    lemma_less_at("ecosystem"@, "package"@, 0);
    lemma_less_at("package"@, "version"@, 0);
}

/// Appends a member whose name comes behind every name there.
fn put(fields: &mut Vec<JsonField>, name: &str, value: Json)
    requires
        ascending_names(field_views(old(fields)@)),
        members_writable(field_views(old(fields)@)),
        below(field_views(old(fields)@), name@),
        writable(value@),
    ensures
        field_views(final(fields)@) == field_views(old(fields)@).push((name@, value@)),
        ascending_names(field_views(final(fields)@)),
        members_writable(field_views(final(fields)@)),
        forall|i: int|
            0 <= i < final(fields)@.len() ==> text_less(
                (#[trigger] field_views(final(fields)@)[i]).0,
                name@,
            ) || field_views(final(fields)@)[i].0 == name@,
{
    let ghost before = field_views(fields@);
    fields.push(JsonField { name: name.to_owned(), value });
    proof {
        let after = field_views(fields@);
        assert(after =~= before.push((name@, value@)));
        assert forall|i: int, j: int| 0 <= i < j < after.len() implies text_less(
            (#[trigger] after[i]).0,
            (#[trigger] after[j]).0,
        ) by {
            assert(after[i] == before[i]);
            if j < before.len() {
                assert(after[j] == before[j]);
            }
        }
        assert forall|i: int| 0 <= i < after.len() implies writable((#[trigger] after[i]).1) by {
            if i < before.len() {
                assert(after[i] == before[i]);
            }
        }
        assert forall|i: int| 0 <= i < after.len() implies text_less(
            (#[trigger] after[i]).0,
            name@,
        ) || after[i].0 == name@ by {
            if i < before.len() {
                assert(after[i] == before[i]);
            }
        }
    }
}

fn text_json(s: &String) -> (j: Json)
    ensures
        j@ == JsonTree::Text(s@),
        writable(j@),
{
    Json::Text(s.clone())
}

fn opt_json(o: &Option<String>) -> (j: Json)
    ensures
        j@ == text_or_null(opt_text(*o)),
        writable(j@),
{
    match o {
        Some(s) => Json::Text(s.clone()),
        None => Json::Null,
    }
}

fn texts_json(items: &Vec<String>) -> (j: Json)
    ensures
        j@ == text_list(texts(items@)),
        writable(j@),
{
    let mut out: Vec<Json> = Vec::new();
    let mut i: usize = 0;
    while i < items.len()
        invariant
            i <= items@.len(),
            out@.len() == i,
            forall|k: int| 0 <= k < i ==> (#[trigger] out@[k])@ == JsonTree::Text(items@[k]@),
        decreases items@.len() - i,
    {
        out.push(Json::Text(items[i].clone()));
        i = i + 1;
    }
    let j = Json::List(out);
    proof {
        lemma_json_view(j);
        let want = Seq::new(items@.len(), |i: int| JsonTree::Text(texts(items@)[i]));
        assert(json_views(out@) =~= want);
        assert forall|k: int| 0 <= k < want.len() implies writable(#[trigger] want[k]) by {}
    }
    j
}

/// The object of an advisory.
pub fn advisory_to_json(a: &Advisory) -> (j: Json)
    ensures
        j@ == advisory_json(a@),
        writable(j@),
{
    let mut fields: Vec<JsonField> = Vec::new();
    proof {
        lemma_other_names();
        assert(field_views(fields@) =~= Seq::empty());
    }
    put(&mut fields, "affected_range", opt_json(&a.affected_range));
    proof {
        lemma_raise(field_views(fields@), "affected_range"@, "aliases"@);
    }
    if a.aliases.len() > 0 {
        put(&mut fields, "aliases", texts_json(&a.aliases));
    }
    proof {
        lemma_raise(field_views(fields@), "aliases"@, "id"@);
    }
    put(&mut fields, "id", text_json(&a.id));
    proof {
        lemma_raise(field_views(fields@), "id"@, "severity"@);
    }
    put(&mut fields, "severity", text_json(&a.severity));
    proof {
        lemma_raise(field_views(fields@), "severity"@, "source"@);
    }
    put(&mut fields, "source", text_json(&a.source));
    proof {
        lemma_raise(field_views(fields@), "source"@, "summary"@);
    }
    put(&mut fields, "summary", text_json(&a.summary));
    proof {
        lemma_raise(field_views(fields@), "summary"@, "url"@);
    }
    put(&mut fields, "url", text_json(&a.url));
    let ghost fv = field_views(fields@);
    let j = Json::Object(fields);
    proof {
        lemma_json_view(j);
        assert(fv =~= advisory_json(a@)->Object_0);
    }
    j
}

/// The list of the objects of advisories.
pub fn advisories_to_json(advs: &Vec<Advisory>) -> (j: Json)
    ensures
        j@ == advisories_json(advisory_views(advs@)),
        writable(j@),
{
    let mut out: Vec<Json> = Vec::new();
    let mut i: usize = 0;
    while i < advs.len()
        invariant
            i <= advs@.len(),
            out@.len() == i,
            forall|k: int|
                0 <= k < i ==> (#[trigger] out@[k])@ == advisory_json(advs@[k]@) && writable(
                    out@[k]@,
                ),
        decreases advs@.len() - i,
    {
        out.push(advisory_to_json(&advs[i]));
        i = i + 1;
    }
    let j = Json::List(out);
    proof {
        lemma_json_view(j);
        let av = advisory_views(advs@);
        let want = Seq::new(av.len(), |i: int| advisory_json(av[i]));
        assert(json_views(out@) =~= want);
        assert forall|k: int| 0 <= k < want.len() implies writable(#[trigger] want[k]) by {
            assert(want[k] == out@[k]@);
        }
    }
    j
}

/// The object of a scan.
pub fn scan_to_json(s: &ScanResult) -> (j: Json)
    ensures
        j@ == scan_json(s@),
        writable(j@),
{
    let mut names: Vec<String> = Vec::new();
    let mut i: usize = 0;
    while i < s.ecosystems.len()
        invariant
            i <= s.ecosystems@.len(),
            names@.len() == i,
            forall|k: int| 0 <= k < i ==> names@[k]@ == ecosystem_name(s.ecosystems@[k]),
        decreases s.ecosystems@.len() - i,
    {
        names.push(s.ecosystems[i].to_string());
        i = i + 1;
    }
    assert(texts(names@) =~= ecosystem_names(s.ecosystems@));
    let mut fields: Vec<JsonField> = Vec::new();
    proof {
        lemma_other_names();
        assert(field_views(fields@) =~= Seq::empty());
    }
    put(&mut fields, "ecosystems", texts_json(&names));
    proof {
        lemma_raise(field_views(fields@), "ecosystems"@, "primary_language"@);
    }
    put(&mut fields, "primary_language", opt_json(&s.primary_language));
    let ghost fv = field_views(fields@);
    let j = Json::Object(fields);
    proof {
        lemma_json_view(j);
        assert(fv =~= scan_json(s@)->Object_0);
    }
    j
}

/// The object of a dependency report.
pub fn report_to_json(r: &DependencyReport) -> (j: Json)
    ensures
        j@ == report_json(r@),
        writable(j@),
{
    let mut fields: Vec<JsonField> = Vec::new();
    proof {
        lemma_other_names();
        assert(field_views(fields@) =~= Seq::empty());
    }
    put(&mut fields, "advisories", advisories_to_json(&r.advisories));
    proof {
        lemma_raise(field_views(fields@), "advisories"@, "ecosystem"@);
    }
    let eco = r.ecosystem.to_string();
    put(&mut fields, "ecosystem", text_json(&eco));
    proof {
        lemma_raise(field_views(fields@), "ecosystem"@, "package"@);
    }
    put(&mut fields, "package", text_json(&r.package));
    proof {
        lemma_raise(field_views(fields@), "package"@, "version"@);
    }
    put(&mut fields, "version", text_json(&r.version));
    let ghost fv = field_views(fields@);
    let j = Json::Object(fields);
    proof {
        lemma_json_view(j);
        assert(fv =~= report_json(r@)->Object_0);
    }
    j
}

/// The list of the objects of dependency reports.
pub fn reports_to_json(reports: &Vec<DependencyReport>) -> (j: Json)
    ensures
        j@ == reports_json(report_views(reports@)),
        writable(j@),
{
    let mut out: Vec<Json> = Vec::new();
    let mut i: usize = 0;
    while i < reports.len()
        invariant
            i <= reports@.len(),
            out@.len() == i,
            forall|k: int|
                0 <= k < i ==> (#[trigger] out@[k])@ == report_json(reports@[k]@) && writable(
                    out@[k]@,
                ),
        decreases reports@.len() - i,
    {
        out.push(report_to_json(&reports[i]));
        i = i + 1;
    }
    let j = Json::List(out);
    proof {
        lemma_json_view(j);
        let rv = report_views(reports@);
        let want = Seq::new(rv.len(), |i: int| report_json(rv[i]));
        assert(json_views(out@) =~= want);
        assert forall|k: int| 0 <= k < want.len() implies writable(#[trigger] want[k]) by {
            assert(want[k] == out@[k]@);
        }
    }
    j
}

fn ref_type_json(t: RefType) -> (j: Json)
    ensures
        j@ == JsonTree::Text(ref_type_name(t)),
        writable(j@),
{
    Json::Text(t.to_string())
}

/// The object of an entry, given the objects of the children of its node.
fn entry_to_json(e: &ActionEntry, children: Vec<Json>) -> (j: Json)
    requires
        forall|k: int| 0 <= k < children@.len() ==> writable(#[trigger] json_views(children@)[k]),
    ensures
        j@ == node_object(e@, json_views(children@)),
        writable(j@),
{
    let ghost cv = json_views(children@);
    let mut fields: Vec<JsonField> = Vec::new();
    proof {
        lemma_node_names();
        assert(field_views(fields@) =~= Seq::empty());
    }
    put(&mut fields, "advisories", advisories_to_json(&e.advisories));
    proof {
        lemma_raise(field_views(fields@), "advisories"@, "children"@);
    }
    if children.len() > 0 {
        let list = Json::List(children);
        proof {
            lemma_json_view(list);
        }
        put(&mut fields, "children", list);
    }
    proof {
        lemma_raise(field_views(fields@), "children"@, "dep_vulnerabilities"@);
    }
    if e.dep_vulnerabilities.len() > 0 {
        put(&mut fields, "dep_vulnerabilities", reports_to_json(&e.dep_vulnerabilities));
    }
    proof {
        lemma_raise(field_views(fields@), "dep_vulnerabilities"@, "git_ref"@);
    }
    add_action(&mut fields, &e.action);
    let ghost mid = field_views(fields@);
    match &e.resolved_sha {
        Some(sha) => {
            put(&mut fields, "resolved_sha", text_json(sha));
        },
        None => {},
    }
    proof {
        lemma_raise(field_views(fields@), "resolved_sha"@, "scan"@);
    }
    match &e.scan {
        Some(s) => {
            put(&mut fields, "scan", scan_to_json(s));
        },
        None => {},
    }
    let ghost fv = field_views(fields@);
    let j = Json::Object(fields);
    proof {
        lemma_json_view(j);
        assert(fv =~= node_object(e@, cv)->Object_0);
    }
    j
}

/// The members that an action gives to the object of its node.
pub open spec fn action_members(a: ActionRefView) -> Seq<(Seq<char>, JsonTree)> {
    seq![
        ("git_ref"@, JsonTree::Text(a.git_ref)),
        ("owner"@, JsonTree::Text(a.owner)),
        ("path"@, text_or_null(a.path)),
        ("raw"@, JsonTree::Text(a.raw)),
        ("ref_type"@, JsonTree::Text(ref_type_name(a.ref_type))),
        ("repo"@, JsonTree::Text(a.repo)),
    ]
}

fn add_action(fields: &mut Vec<JsonField>, a: &ActionRef)
    requires
        ascending_names(field_views(old(fields)@)),
        members_writable(field_views(old(fields)@)),
        below(field_views(old(fields)@), "git_ref"@),
    ensures
        field_views(final(fields)@) == field_views(old(fields)@) + action_members(a@),
        ascending_names(field_views(final(fields)@)),
        members_writable(field_views(final(fields)@)),
        below(field_views(final(fields)@), "resolved_sha"@),
{
    let ghost start = field_views(fields@);
    proof {
        lemma_node_names();
    }
    put(fields, "git_ref", text_json(&a.git_ref));
    proof {
        lemma_raise(field_views(fields@), "git_ref"@, "owner"@);
    }
    put(fields, "owner", text_json(&a.owner));
    proof {
        lemma_raise(field_views(fields@), "owner"@, "path"@);
    }
    put(fields, "path", opt_json(&a.path));
    proof {
        lemma_raise(field_views(fields@), "path"@, "raw"@);
    }
    put(fields, "raw", text_json(&a.raw));
    proof {
        lemma_raise(field_views(fields@), "raw"@, "ref_type"@);
    }
    put(fields, "ref_type", ref_type_json(a.ref_type));
    proof {
        lemma_raise(field_views(fields@), "ref_type"@, "repo"@);
    }
    put(fields, "repo", text_json(&a.repo));
    proof {
        lemma_raise(field_views(fields@), "repo"@, "resolved_sha"@);
        assert(field_views(fields@) =~= start + action_members(a@));
    }
}

/// The objects of a list of nodes.
#[verifier::loop_isolation(false)]
pub fn nodes_to_json(nodes: &Vec<AuditNode>) -> (out: Vec<Json>)
    ensures
        json_views(out@) == forest_json(node_views(nodes@)),
        forall|k: int| 0 <= k < out@.len() ==> writable(#[trigger] json_views(out@)[k]),
    decreases nodes,
{
    let ghost nv = node_views(nodes@);
    let mut out: Vec<Json> = Vec::new();
    let mut i: usize = 0;
    proof {
        assert(nv.subrange(0, 0) =~= Seq::<AuditNodeView>::empty());
        assert(json_views(out@) =~= forest_json(nv.subrange(0, 0)));
    }
    while i < nodes.len()
        invariant
            i <= nodes@.len(),
            json_views(out@) == forest_json(nv.subrange(0, i as int)),
            forall|k: int| 0 <= k < out@.len() ==> writable(#[trigger] json_views(out@)[k]),
        decreases nodes@.len() - i,
    {
        let ghost before = json_views(out@);
        let node = &nodes[i];
        proof {
            lemma_node_view(*node);
            let next = nv.subrange(0, i + 1);
            assert(next.drop_last() =~= nv.subrange(0, i as int));
            assert(next.last() == node@);
        }
        let children = nodes_to_json(&node.children);
        let object = entry_to_json(&node.entry, children);
        out.push(object);
        proof {
            assert(json_views(out@) =~= before.push(object@));
            assert forall|k: int| 0 <= k < out@.len() implies writable(
                #[trigger] json_views(out@)[k],
            ) by {
                if k < before.len() {
                    assert(json_views(out@)[k] == before[k]);
                }
            }
        }
        i = i + 1;
    }
    proof {
        assert(nv.subrange(0, nv.len() as int) =~= nv);
    }
    out
}

/// The JSON text of a result tree: the indented text of its document and
/// a line break behind it; `None` where the writer has no text for it.
pub open spec fn json_text(nodes: Seq<AuditNodeView>) -> Option<Seq<char>> {
    match json_pretty_text(tree_json(nodes)) {
        Some(t) => Some(t + "\n"@),
        None => None,
    }
}

/// What is handed out for what the writer gave: its text with a line
/// break behind it, or its message as it is.
pub fn line_ended(written: Result<String, String>) -> (r: Result<String, String>)
    ensures
        match written {
            Ok(text) => r matches Ok(s) && s@ == text@ + "\n"@,
            Err(m) => r matches Err(e) && e@ == m@,
        },
{
    match written {
        Ok(text) => {
            let mut text = text;
            text.append("\n");
            Ok(text)
        },
        Err(m) => Err(m),
    }
}

/// The JSON form of the result tree.
pub struct JsonOutput;

impl JsonOutput {
    /// The document of a tree: the array of the objects of its roots.
    pub fn document(&self, nodes: &Vec<AuditNode>) -> (j: Json)
        ensures
            j@ == tree_json(node_views(nodes@)),
            writable(j@),
    {
        let j = Json::List(nodes_to_json(nodes));
        proof {
            lemma_json_view(j);
        }
        j
    }

    /// The tree as indented JSON text with a line break at its end: the
    /// text of the tree's document, or the writer's message where it has
    /// no text for that document.
    pub fn write_results(&self, nodes: &Vec<AuditNode>) -> (r: Result<String, String>)
        ensures
            match json_text(node_views(nodes@)) {
                Some(t) => r matches Ok(s) && s@ == t,
                None => r is Err,
            },
    {
        let doc = self.document(nodes);
        line_ended(render_pretty(&doc))
    }
}

} // verus!
