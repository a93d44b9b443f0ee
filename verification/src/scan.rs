//! What a scan of an action's repository finds: its main language and the
//! package ecosystems whose manifests it holds.
use crate::json::{json_views, member, Json, JsonTree};
use crate::text::{copy_opt, opt_text};
use vstd::prelude::*;

verus! {

/// A package manager's namespace.
#[derive(Debug, Clone, Copy, PartialEq, Eq, Structural)]
pub enum Ecosystem {
    Npm,
    Cargo,
    Go,
    Pip,
    Maven,
    Gradle,
    RubyGems,
    Composer,
    Docker,
}

/// Lower-case name of an ecosystem.
pub open spec fn ecosystem_name(e: Ecosystem) -> Seq<char> {
    match e {
        Ecosystem::Npm => "npm"@,
        Ecosystem::Cargo => "cargo"@,
        Ecosystem::Go => "go"@,
        Ecosystem::Pip => "pip"@,
        Ecosystem::Maven => "maven"@,
        Ecosystem::Gradle => "gradle"@,
        Ecosystem::RubyGems => "rubygems"@,
        Ecosystem::Composer => "composer"@,
        Ecosystem::Docker => "docker"@,
    }
}

impl Ecosystem {
    /// Lower-case name of the ecosystem.
    pub fn to_string(&self) -> (s: String)
        ensures
            s@ == ecosystem_name(*self),
    {
        match self {
            Ecosystem::Npm => "npm".to_owned(),
            Ecosystem::Cargo => "cargo".to_owned(),
            Ecosystem::Go => "go".to_owned(),
            Ecosystem::Pip => "pip".to_owned(),
            Ecosystem::Maven => "maven".to_owned(),
            Ecosystem::Gradle => "gradle".to_owned(),
            Ecosystem::RubyGems => "rubygems".to_owned(),
            Ecosystem::Composer => "composer".to_owned(),
            Ecosystem::Docker => "docker".to_owned(),
        }
    }
}

/// Result of scanning one repository.
#[derive(Debug)]
pub struct ScanResult {
    /// The language with the most bytes, where any was reported.
    pub primary_language: Option<String>,
    /// Ecosystems found, in the order in which manifests are probed, each once.
    pub ecosystems: Vec<Ecosystem>,
}

/// Mathematical value of a [`ScanResult`].
pub struct ScanResultView {
    pub primary_language: Option<Seq<char>>,
    pub ecosystems: Seq<Ecosystem>,
}

impl View for ScanResult {
    type V = ScanResultView;

    open spec fn view(&self) -> ScanResultView {
        ScanResultView {
            primary_language: opt_text(self.primary_language),
            ecosystems: self.ecosystems@,
        }
    }
}

/// View of an optional scan result.
pub open spec fn opt_scan(o: Option<ScanResult>) -> Option<ScanResultView> {
    match o {
        Some(s) => Some(s@),
        None => None,
    }
}

impl ScanResult {
    /// A copy, field by field.
    pub fn duplicate(&self) -> (c: ScanResult)
        ensures
            c@ == self@,
    {
        let mut ecosystems: Vec<Ecosystem> = Vec::new();
        let mut i: usize = 0;
        while i < self.ecosystems.len()
            invariant
                i <= self.ecosystems@.len(),
                ecosystems@ == self.ecosystems@.subrange(0, i as int),
            decreases self.ecosystems@.len() - i,
        {
            ecosystems.push(self.ecosystems[i]);
            i = i + 1;
        }
        assert(ecosystems@ =~= self.ecosystems@);
        ScanResult { primary_language: copy_opt(&self.primary_language), ecosystems }
    }
}

impl Clone for ScanResult {
    fn clone(&self) -> (c: ScanResult)
        ensures
            c@ == self@,
    {
        self.duplicate()
    }
}

/// A copy of an optional scan result.
pub fn copy_scan(o: &Option<ScanResult>) -> (r: Option<ScanResult>)
    ensures
        opt_scan(r) == opt_scan(*o),
{
    match o {
        Some(s) => Some(s.duplicate()),
        None => None,
    }
}

/// Number of manifest files that a scan probes.
pub const MANIFEST_COUNT: usize = 10;

/// The manifest probes, in their fixed order: the alias under which the
/// query asks for a file, and the ecosystem that the file stands for.
pub open spec fn manifest_aliases() -> Seq<(Seq<char>, Ecosystem)> {
    seq![
        ("packageJson"@, Ecosystem::Npm),
        ("cargoToml"@, Ecosystem::Cargo),
        ("goMod"@, Ecosystem::Go),
        ("requirementsTxt"@, Ecosystem::Pip),
        ("pyprojectToml"@, Ecosystem::Pip),
        ("pomXml"@, Ecosystem::Maven),
        ("buildGradle"@, Ecosystem::Gradle),
        ("gemfile"@, Ecosystem::RubyGems),
        ("composerJson"@, Ecosystem::Composer),
        ("dockerfile"@, Ecosystem::Docker),
    ]
}

/// The probe number `i`, counted from 0; `None` behind the last.
pub fn manifest_alias(i: usize) -> (r: Option<(&'static str, Ecosystem)>)
    ensures
        match r {
            Some(p) => i < MANIFEST_COUNT && p.0@ == manifest_aliases()[i as int].0 && p.1
                == manifest_aliases()[i as int].1,
            None => i >= MANIFEST_COUNT,
        },
{
    if i == 0 {
        Some(("packageJson", Ecosystem::Npm))
    } else if i == 1 {
        Some(("cargoToml", Ecosystem::Cargo))
    } else if i == 2 {
        Some(("goMod", Ecosystem::Go))
    } else if i == 3 {
        Some(("requirementsTxt", Ecosystem::Pip))
    } else if i == 4 {
        Some(("pyprojectToml", Ecosystem::Pip))
    } else if i == 5 {
        Some(("pomXml", Ecosystem::Maven))
    } else if i == 6 {
        Some(("buildGradle", Ecosystem::Gradle))
    } else if i == 7 {
        Some(("gemfile", Ecosystem::RubyGems))
    } else if i == 8 {
        Some(("composerJson", Ecosystem::Composer))
    } else if i == 9 {
        Some(("dockerfile", Ecosystem::Docker))
    } else {
        None
    }
}

/// Whether the answer holds something other than `null` under `alias`.
pub open spec fn probe_found(repo: JsonTree, alias: Seq<char>) -> bool {
    match member(repo, alias) {
        Some(v) => !(v is Null),
        None => false,
    }
}

/// The ecosystems found by the first `n` probes: in probe order, the
/// ecosystem of each probe that found its file, unless it is there already.
pub open spec fn ecosystems_upto(repo: JsonTree, n: nat) -> Seq<Ecosystem>
    decreases n,
{
    if n == 0 || n > manifest_aliases().len() {
        Seq::empty()
    } else {
        let before = ecosystems_upto(repo, (n - 1) as nat);
        let probe = manifest_aliases()[n - 1];
        if probe_found(repo, probe.0) && !before.contains(probe.1) {
            before.push(probe.1)
        } else {
            before
        }
    }
}

/// The ecosystems of a repository, by the manifests that the answer reports.
pub open spec fn ecosystems_of(repo: JsonTree) -> Seq<Ecosystem> {
    ecosystems_upto(repo, 10)
}

/// Whether `e` is among `list`.
pub fn has_ecosystem(list: &Vec<Ecosystem>, e: Ecosystem) -> (r: bool)
    ensures
        r == list@.contains(e),
{
    let mut i: usize = 0;
    while i < list.len()
        invariant
            i <= list@.len(),
            forall|k: int| 0 <= k < i ==> list@[k] != e,
        decreases list@.len() - i,
    {
        if list[i] == e {
            return true;
        }
        i = i + 1;
    }
    false
}

/// The ecosystems whose manifest files the answer reports, in probe
/// order, each once.
pub fn extract_ecosystems(repo: &Json) -> (found: Vec<Ecosystem>)
    ensures
        found@ == ecosystems_of(repo@),
{
    let mut found: Vec<Ecosystem> = Vec::new();
    let mut i: usize = 0;
    while i < MANIFEST_COUNT
        invariant
            i <= MANIFEST_COUNT,
            found@ == ecosystems_upto(repo@, i as nat),
        decreases MANIFEST_COUNT - i,
    {
        match manifest_alias(i) {
            Some(probe) => {
                let present = match repo.get(probe.0) {
                    Some(v) => !v.is_null(),
                    None => false,
                };
                if present && !has_ecosystem(&found, probe.1) {
                    found.push(probe.1);
                }
            },
            None => {},
        }
        i = i + 1;
    }
    found
}

/// The member `b` of the member `a` of a document.
pub open spec fn member2(t: JsonTree, a: Seq<char>, b: Seq<char>) -> Option<JsonTree> {
    match member(t, a) {
        Some(inner) => member(inner, b),
        None => None,
    }
}

/// The language and size that one edge of the language histogram
/// reports; `None` for an edge without a size that is a non-negative
/// integer or without a name that is a text.
pub open spec fn edge_entry(e: JsonTree) -> Option<(Seq<char>, u64)> {
    match (member(e, "size"@), member2(e, "node"@, "name"@)) {
        (Some(JsonTree::Number(Some(size))), Some(JsonTree::Text(name))) => Some((name, size)),
        _ => None,
    }
}

/// The largest entry among the first `n` edges; of several largest the last.
pub open spec fn largest_upto(edges: Seq<JsonTree>, n: nat) -> Option<(Seq<char>, u64)>
    decreases n,
{
    if n == 0 || n > edges.len() {
        None
    } else {
        let before = largest_upto(edges, (n - 1) as nat);
        match edge_entry(edges[n - 1]) {
            None => before,
            Some(entry) => match before {
                Some(best) => if entry.1 >= best.1 {
                    Some(entry)
                } else {
                    before
                },
                None => Some(entry),
            },
        }
    }
}

/// The primary language of a repository: the name of the edge of
/// `languages.edges` with the largest size; `None` without such an edge.
pub open spec fn primary_language_of(repo: JsonTree) -> Option<Seq<char>> {
    match member2(repo, "languages"@, "edges"@) {
        Some(JsonTree::List(edges)) => match largest_upto(edges, edges.len()) {
            Some(entry) => Some(entry.0),
            None => None,
        },
        _ => None,
    }
}

fn read_edge(e: &Json) -> (r: Option<(String, u64)>)
    ensures
        match r {
            Some(p) => edge_entry(e@) == Some((p.0@, p.1)),
            None => edge_entry(e@) is None,
        },
{
    let size = match e.get("size") {
        Some(v) => match v.as_u64() {
            Some(n) => n,
            None => {
                return None;
            },
        },
        None => {
            return None;
        },
    };
    let node = match e.get("node") {
        Some(n) => n,
        None => {
            return None;
        },
    };
    match node.get("name") {
        Some(v) => match v.as_str() {
            Some(s) => Some((s.to_owned(), size)),
            None => None,
        },
        None => None,
    }
}

/// The language with the most bytes in the answer.
pub fn extract_primary_language(repo: &Json) -> (r: Option<String>)
    ensures
        opt_text(r) == primary_language_of(repo@),
{
    let languages = match repo.get("languages") {
        Some(l) => l,
        None => {
            return None;
        },
    };
    let edges = match languages.get("edges") {
        Some(e) => match e.as_list() {
            Some(list) => list,
            None => {
                return None;
            },
        },
        None => {
            return None;
        },
    };
    let ghost ev = json_views(edges@);
    let mut best: Option<(String, u64)> = None;
    let mut i: usize = 0;
    while i < edges.len()
        invariant
            i <= edges@.len(),
            ev == json_views(edges@),
            match best {
                Some(p) => largest_upto(ev, i as nat) == Some((p.0@, p.1)),
                None => largest_upto(ev, i as nat) is None,
            },
        decreases edges@.len() - i,
    {
        assert(ev[i as int] == edges@[i as int]@);
        match read_edge(&edges[i]) {
            Some(entry) => {
                let better = match &best {
                    Some(p) => entry.1 >= p.1,
                    None => true,
                };
                if better {
                    best = Some(entry);
                }
            },
            None => {},
        }
        i = i + 1;
    }
    match best {
        Some(p) => Some(p.0),
        None => None,
    }
}

/// What a scan makes of the `repository` part of an answer.
pub open spec fn scan_of(repo: JsonTree) -> ScanResultView {
    ScanResultView {
        primary_language: primary_language_of(repo),
        ecosystems: ecosystems_of(repo),
    }
}

/// The result of a scan, from the `data` of the answer to the scan query:
/// language and ecosystems of its `repository`; `None` where the answer
/// names no repository.
pub fn scan_from_data(data: &Json) -> (r: Option<ScanResult>)
    ensures
        match member(data@, "repository"@) {
            Some(repo) => opt_scan(r) == Some(scan_of(repo)),
            None => r is None,
        },
{
    match data.get("repository") {
        Some(repo) => Some(
            ScanResult {
                primary_language: extract_primary_language(repo),
                ecosystems: extract_ecosystems(repo),
            },
        ),
        None => None,
    }
}

/// The text of the scan query for a repository.
pub open spec fn query_text(owner: Seq<char>, repo: Seq<char>) -> Seq<char> {
    "query {\n  repository(owner: \""@ + owner + "\", name: \""@ + repo
        + "\") {\n    languages(first: 10) {\n      edges { size node { name } }\n    }\n    packageJson: object(expression: \"HEAD:package.json\") { __typename }\n    cargoToml: object(expression: \"HEAD:Cargo.toml\") { __typename }\n    goMod: object(expression: \"HEAD:go.mod\") { __typename }\n    requirementsTxt: object(expression: \"HEAD:requirements.txt\") { __typename }\n    pyprojectToml: object(expression: \"HEAD:pyproject.toml\") { __typename }\n    pomXml: object(expression: \"HEAD:pom.xml\") { __typename }\n    buildGradle: object(expression: \"HEAD:build.gradle\") { __typename }\n    gemfile: object(expression: \"HEAD:Gemfile\") { __typename }\n    composerJson: object(expression: \"HEAD:composer.json\") { __typename }\n    dockerfile: object(expression: \"HEAD:Dockerfile\") { __typename }\n  }\n}"@
}

/// The query that asks for the language histogram of a repository and
/// probes its ten manifest files.
pub fn build_query(owner: &str, repo: &str) -> (q: String)
    ensures
        q@ == query_text(owner@, repo@),
{
    let mut q = "query {\n  repository(owner: \"".to_owned();
    q.append(owner);
    q.append("\", name: \"");
    q.append(repo);
    q.append(
        "\") {\n    languages(first: 10) {\n      edges { size node { name } }\n    }\n    packageJson: object(expression: \"HEAD:package.json\") { __typename }\n    cargoToml: object(expression: \"HEAD:Cargo.toml\") { __typename }\n    goMod: object(expression: \"HEAD:go.mod\") { __typename }\n    requirementsTxt: object(expression: \"HEAD:requirements.txt\") { __typename }\n    pyprojectToml: object(expression: \"HEAD:pyproject.toml\") { __typename }\n    pomXml: object(expression: \"HEAD:pom.xml\") { __typename }\n    buildGradle: object(expression: \"HEAD:build.gradle\") { __typename }\n    gemfile: object(expression: \"HEAD:Gemfile\") { __typename }\n    composerJson: object(expression: \"HEAD:composer.json\") { __typename }\n    dockerfile: object(expression: \"HEAD:Dockerfile\") { __typename }\n  }\n}",
    );
    q
}

} // verus!
