//! Package-level findings for the dependencies of an action.
use crate::advisory::{advisory_views, Advisory, AdvisoryView};
use crate::json::{field_views, json_document, member, parse_json, Json, JsonField, JsonTree};
use crate::scan::Ecosystem;
use vstd::prelude::*;

verus! {

/// The advisories found for one package that an action depends on.
#[derive(Debug)]
pub struct DependencyReport {
    pub package: String,
    pub version: String,
    pub ecosystem: Ecosystem,
    /// Never empty in a report that a stage emits.
    pub advisories: Vec<Advisory>,
}

/// Mathematical value of a [`DependencyReport`].
pub struct DependencyReportView {
    pub package: Seq<char>,
    pub version: Seq<char>,
    pub ecosystem: Ecosystem,
    pub advisories: Seq<AdvisoryView>,
}

impl View for DependencyReport {
    type V = DependencyReportView;

    open spec fn view(&self) -> DependencyReportView {
        DependencyReportView {
            package: self.package@,
            version: self.version@,
            ecosystem: self.ecosystem,
            advisories: advisory_views(self.advisories@),
        }
    }
}

/// The views of a list of reports.
pub open spec fn report_views(v: Seq<DependencyReport>) -> Seq<DependencyReportView> {
    Seq::new(v.len(), |i: int| v[i]@)
}

/// A copy of a list of advisories.
pub fn copy_advisories(v: &Vec<Advisory>) -> (r: Vec<Advisory>)
    ensures
        advisory_views(r@) == advisory_views(v@),
{
    let mut r: Vec<Advisory> = Vec::new();
    let mut i: usize = 0;
    while i < v.len()
        invariant
            i <= v@.len(),
            r@.len() == i,
            forall|j: int| 0 <= j < i ==> r@[j]@ == v@[j]@,
        decreases v@.len() - i,
    {
        r.push(v[i].duplicate());
        i = i + 1;
    }
    assert(advisory_views(r@) =~= advisory_views(v@));
    r
}

impl DependencyReport {
    /// A copy, field by field.
    pub fn duplicate(&self) -> (c: DependencyReport)
        ensures
            c@ == self@,
    {
        DependencyReport {
            package: self.package.clone(),
            version: self.version.clone(),
            ecosystem: self.ecosystem,
            advisories: copy_advisories(&self.advisories),
        }
    }
}

impl Clone for DependencyReport {
    fn clone(&self) -> (c: DependencyReport)
        ensures
            c@ == self@,
    {
        self.duplicate()
    }
}

/// A copy of a list of reports.
pub fn copy_reports(v: &Vec<DependencyReport>) -> (r: Vec<DependencyReport>)
    ensures
        report_views(r@) == report_views(v@),
{
    let mut r: Vec<DependencyReport> = Vec::new();
    let mut i: usize = 0;
    while i < v.len()
        invariant
            i <= v@.len(),
            r@.len() == i,
            forall|j: int| 0 <= j < i ==> r@[j]@ == v@[j]@,
        decreases v@.len() - i,
    {
        r.push(v[i].duplicate());
        i = i + 1;
    }
    assert(report_views(r@) =~= report_views(v@));
    r
}

/// The views of a list of pairs of strings.
pub open spec fn pair_views(v: Seq<(String, String)>) -> Seq<(Seq<char>, Seq<char>)> {
    Seq::new(v.len(), |i: int| (v[i].0@, v[i].1@))
}

/// The members among the first `n` whose value is a text, as pairs of
/// name and text, in order.
pub open spec fn text_members_upto(fields: Seq<(Seq<char>, JsonTree)>, n: nat) -> Seq<
    (Seq<char>, Seq<char>),
>
    decreases n,
{
    if n == 0 || n > fields.len() {
        Seq::empty()
    } else {
        let before = text_members_upto(fields, (n - 1) as nat);
        match fields[n - 1].1 {
            JsonTree::Text(v) => before.push((fields[n - 1].0, v)),
            _ => before,
        }
    }
}

/// The packages that a package manifest of npm depends on: name and
/// version of each member of `dependencies` whose value is a text. None
/// where `dependencies` is missing or no object.
pub open spec fn npm_packages(manifest: JsonTree) -> Seq<(Seq<char>, Seq<char>)> {
    match member(manifest, "dependencies"@) {
        Some(JsonTree::Object(fields)) => text_members_upto(fields, fields.len()),
        _ => Seq::empty(),
    }
}

/// The dependencies that a manifest document lists.
pub fn npm_dependencies(manifest: &Json) -> (out: Vec<(String, String)>)
    ensures
        pair_views(out@) == npm_packages(manifest@),
{
    let mut out: Vec<(String, String)> = Vec::new();
    let fields = match manifest.get("dependencies") {
        Some(d) => match d.as_object() {
            Some(f) => f,
            None => {
                assert(pair_views(out@) =~= Seq::empty());
                return out;
            },
        },
        None => {
            assert(pair_views(out@) =~= Seq::empty());
            return out;
        },
    };
    let ghost fv = field_views(fields@);
    let mut i: usize = 0;
    assert(pair_views(out@) =~= text_members_upto(fv, 0));
    while i < fields.len()
        invariant
            i <= fields@.len(),
            fv == field_views(fields@),
            pair_views(out@) == text_members_upto(fv, i as nat),
        decreases fields@.len() - i,
    {
        let ghost before = pair_views(out@);
        assert(fv[i as int] == (fields@[i as int].name@, fields@[i as int].value@));
        match fields[i].value.as_str() {
            Some(v) => {
                out.push((fields[i].name.clone(), v.to_owned()));
                assert(pair_views(out@) =~= before.push((fv[i as int].0, v@)));
            },
            None => {},
        }
        i = i + 1;
    }
    out
}

/// Reads a package manifest of npm: the runtime dependencies with their
/// version requirements. Development dependencies do not count, nor does
/// an entry whose version is no text. Fails where the text is no JSON.
pub fn parse_npm_dependencies(content: &str) -> (r: Result<Vec<(String, String)>, String>)
    ensures
        match json_document(content@) {
            Some(t) => r matches Ok(v) && pair_views(v@) == npm_packages(t),
            None => r is Err,
        },
{
    match parse_json(content) {
        Ok(doc) => Ok(npm_dependencies(&doc)),
        Err(m) => Err(m),
    }
}

} // verus!
