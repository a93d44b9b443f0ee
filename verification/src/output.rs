//! The result tree and its renderings.
use crate::action_ref::{ActionRef, ActionRefView};
use crate::advisory::{advisory_views, Advisory, AdvisoryView};
use crate::context::{
    copy_errors, error_views, AuditContext, AuditContextView, StageError, StageErrorView,
};
use crate::deps::{copy_advisories, copy_reports, report_views, DependencyReport, DependencyReportView};
use crate::scan::{copy_scan, ecosystem_name, opt_scan, Ecosystem, ScanResult, ScanResultView};
use crate::text::{copy_opt, join, joined, opt_text, texts};
use crate::advisory::advisory_text;
use crate::output_json::json_text;
pub use crate::output_json::JsonOutput;
use vstd::prelude::*;
use vstd::std_specs::convert::FromSpecImpl;

verus! {

/// What the audit found for one action.
#[derive(Debug)]
pub struct ActionEntry {
    pub action: ActionRef,
    pub resolved_sha: Option<String>,
    pub advisories: Vec<Advisory>,
    pub scan: Option<ScanResult>,
    pub dep_vulnerabilities: Vec<DependencyReport>,
    /// What went wrong while the node was processed, in order.
    pub errors: Vec<StageError>,
}

/// Mathematical value of an [`ActionEntry`].
pub struct ActionEntryView {
    pub action: ActionRefView,
    pub resolved_sha: Option<Seq<char>>,
    pub advisories: Seq<AdvisoryView>,
    pub scan: Option<ScanResultView>,
    pub dep_vulnerabilities: Seq<DependencyReportView>,
    pub errors: Seq<StageErrorView>,
}

impl View for ActionEntry {
    type V = ActionEntryView;

    open spec fn view(&self) -> ActionEntryView {
        ActionEntryView {
            action: self.action@,
            resolved_sha: opt_text(self.resolved_sha),
            advisories: advisory_views(self.advisories@),
            scan: opt_scan(self.scan),
            dep_vulnerabilities: report_views(self.dependencies_field()),
            errors: error_views(self.errors@),
        }
    }
}

/// The part of a finished context that the result tree holds: what was
/// found for the action, and what went wrong on the way.
pub open spec fn entry_of(ctx: AuditContextView) -> ActionEntryView {
    ActionEntryView {
        action: ctx.action,
        resolved_sha: ctx.resolved_ref,
        advisories: ctx.advisories,
        scan: ctx.scan,
        dep_vulnerabilities: ctx.dependencies,
        errors: ctx.errors,
    }
}

impl ActionEntry {
    /// The dependency reports, as a sequence.
    pub open spec fn dependencies_field(&self) -> Seq<DependencyReport> {
        self.dep_vulnerabilities@
    }

    /// The entry of a context, copied field by field.
    pub fn of_context(ctx: &AuditContext) -> (e: ActionEntry)
        ensures
            e@ == entry_of(ctx@),
    {
        ActionEntry {
            action: ctx.action.duplicate(),
            resolved_sha: copy_opt(&ctx.resolved_ref),
            advisories: copy_advisories(&ctx.advisories),
            scan: copy_scan(&ctx.scan),
            dep_vulnerabilities: copy_reports(&ctx.dependencies),
            errors: copy_errors(&ctx.errors),
        }
    }
}

impl From<AuditContext> for ActionEntry {
    fn from(ctx: AuditContext) -> (e: ActionEntry)
        ensures
            e@ == entry_of(ctx@),
    {
        ActionEntry {
            action: ctx.action,
            resolved_sha: ctx.resolved_ref,
            advisories: ctx.advisories,
            scan: ctx.scan,
            dep_vulnerabilities: ctx.dependencies,
            errors: ctx.errors,
        }
    }
}

impl FromSpecImpl<AuditContext> for ActionEntry {
    open spec fn obeys_from_spec() -> bool {
        true
    }

    open spec fn from_spec(ctx: AuditContext) -> ActionEntry {
        ActionEntry {
            action: ctx.action,
            resolved_sha: ctx.resolved_ref,
            advisories: ctx.advisories,
            scan: ctx.scan,
            dep_vulnerabilities: ctx.dependencies,
            errors: ctx.errors,
        }
    }
}

/// A node of the result tree: an entry and the nodes discovered under it.
#[derive(Debug)]
pub struct AuditNode {
    pub entry: ActionEntry,
    pub children: Vec<AuditNode>,
}

/// Mathematical value of an [`AuditNode`].
pub struct AuditNodeView {
    pub entry: ActionEntryView,
    pub children: Seq<AuditNodeView>,
}

/// The mathematical value of a node: the view of its entry, over the
/// values of its children.
pub open spec fn node_view(n: AuditNode) -> AuditNodeView
    decreases n,
{
    AuditNodeView {
        entry: n.entry@,
        children: Seq::new(
            n.children@.len(),
            |i: int|
                if 0 <= i < n.children@.len() {
                    node_view(n.children@[i])
                } else {
                    arbitrary()
                },
        ),
    }
}

impl View for AuditNode {
    type V = AuditNodeView;

    open spec fn view(&self) -> AuditNodeView {
        node_view(*self)
    }
}

/// The views of a list of nodes.
pub open spec fn node_views(v: Seq<AuditNode>) -> Seq<AuditNodeView> {
    Seq::new(v.len(), |i: int| v[i]@)
}

/// The view of a node: the view of its entry, over the views of its children.
pub proof fn lemma_node_view(n: AuditNode)
    ensures
        n@.entry == n.entry@,
        n@.children == node_views(n.children@),
{
    let a = n@.children;
    let b = node_views(n.children@);
    assert(a.len() == b.len());
    assert forall|i: int| 0 <= i < a.len() implies a[i] == b[i] by {
        assert(b[i] == n.children@[i]@);
    }
    assert(a =~= b);
}

/// The node of a finished context, before any child is attached.
pub open spec fn leaf_of(ctx: AuditContextView) -> AuditNodeView {
    AuditNodeView { entry: entry_of(ctx), children: Seq::empty() }
}

impl From<AuditContext> for AuditNode {
    fn from(ctx: AuditContext) -> (n: AuditNode)
        ensures
            n@ == leaf_of(ctx@),
    {
        let n = AuditNode { entry: ActionEntry::from(ctx), children: Vec::new() };
        assert(n@.children =~= Seq::empty());
        n
    }
}

impl FromSpecImpl<AuditContext> for AuditNode {
    open spec fn obeys_from_spec() -> bool {
        false
    }

    open spec fn from_spec(ctx: AuditContext) -> AuditNode {
        arbitrary()
    }
}

/// The lines of a list of advisories: each advisory behind `prefix`, with
/// a line break at its end.
pub open spec fn advisory_lines(advs: Seq<AdvisoryView>, prefix: Seq<char>) -> Seq<char>
    decreases advs.len(),
{
    if advs.len() == 0 {
        Seq::empty()
    } else {
        advisory_lines(advs.drop_last(), prefix) + prefix + advisory_text(advs.last()) + "\n"@
    }
}

/// The block of one dependency report: package, version and ecosystem on
/// a line, the advisories below it.
pub open spec fn report_text(r: DependencyReportView, indent: Seq<char>) -> Seq<char> {
    indent + "    "@ + r.package + "@"@ + r.version + " ("@ + ecosystem_name(r.ecosystem) + "):\n"@
        + advisory_lines(r.advisories, indent + "      "@)
}

/// The blocks of a list of dependency reports.
pub open spec fn report_lines(reports: Seq<DependencyReportView>, indent: Seq<char>) -> Seq<char>
    decreases reports.len(),
{
    if reports.len() == 0 {
        Seq::empty()
    } else {
        report_lines(reports.drop_last(), indent) + report_text(reports.last(), indent)
    }
}

/// The names of a list of ecosystems.
pub open spec fn ecosystem_names(list: Seq<Ecosystem>) -> Seq<Seq<char>> {
    Seq::new(list.len(), |i: int| ecosystem_name(list[i]))
}

/// The lines about a scan: the language, where one was found, and the
/// ecosystems, where any were found.
pub open spec fn scan_text(scan: Option<ScanResultView>, indent: Seq<char>) -> Seq<char> {
    match scan {
        None => Seq::empty(),
        Some(s) => {
            let language = match s.primary_language {
                Some(l) => indent + "  language: "@ + l + "\n"@,
                None => Seq::empty(),
            };
            let ecosystems = if s.ecosystems.len() > 0 {
                indent + "  ecosystems: "@ + joined(ecosystem_names(s.ecosystems), ", "@) + "\n"@
            } else {
                Seq::empty()
            };
            language + ecosystems
        },
    }
}

/// The text of one entry at the indentation `indent`: the action's `raw`;
/// its commit, where it was resolved; what a scan found; its advisories,
/// or `advisories: none`; and its dependency vulnerabilities, where there
/// are any.
pub open spec fn entry_text(e: ActionEntryView, indent: Seq<char>) -> Seq<char> {
    let head = indent + e.action.raw + "\n"@;
    let sha = match e.resolved_sha {
        Some(s) => indent + "  sha: "@ + s + "\n"@,
        None => Seq::empty(),
    };
    let advisories = if e.advisories.len() == 0 {
        indent + "  advisories: none\n"@
    } else {
        advisory_lines(e.advisories, indent + "  "@)
    };
    let deps = if e.dep_vulnerabilities.len() == 0 {
        Seq::empty()
    } else {
        indent + "  dependency vulnerabilities:\n"@ + report_lines(e.dep_vulnerabilities, indent)
    };
    head + sha + scan_text(e.scan, indent) + advisories + deps
}

/// The text of a forest at the indentation `indent`: each node's entry,
/// then the nodes under it, two spaces further in.
pub open spec fn forest_text(f: Seq<AuditNodeView>, indent: Seq<char>) -> Seq<char>
    decreases f,
{
    if f.len() == 0 {
        Seq::empty()
    } else {
        forest_text(f.drop_last(), indent) + entry_text(f.last().entry, indent) + forest_text(
            f.last().children,
            indent + "  "@,
        )
    }
}

fn write_advisories(advs: &Vec<Advisory>, prefix: &str, out: &mut String)
    ensures
        final(out)@ == old(out)@ + advisory_lines(advisory_views(advs@), prefix@),
{
    let ghost av = advisory_views(advs@);
    let ghost start = out@;
    let mut i: usize = 0;
    proof {
        assert(av.subrange(0, 0) =~= Seq::<AdvisoryView>::empty());
        assert(out@ =~= start + advisory_lines(av.subrange(0, 0), prefix@));
    }
    while i < advs.len()
        invariant
            i <= advs@.len(),
            av == advisory_views(advs@),
            out@ == start + advisory_lines(av.subrange(0, i as int), prefix@),
        decreases advs@.len() - i,
    {
        let ghost before = out@;
        proof {
            let next = av.subrange(0, i + 1);
            assert(next.drop_last() =~= av.subrange(0, i as int));
            assert(next.last() == advs@[i as int]@);
        }
        out.append(prefix);
        let line = advs[i].to_string();
        out.append(line.as_str());
        out.append("\n");
        proof {
            assert(out@ =~= start + (advisory_lines(av.subrange(0, i as int), prefix@) + prefix@
                + advisory_text(advs@[i as int]@) + "\n"@));
        }
        i = i + 1;
    }
    proof {
        assert(av.subrange(0, av.len() as int) =~= av);
    }
}

fn extended(indent: &str, more: &str) -> (r: String)
    ensures
        r@ == indent@ + more@,
{
    let mut r = indent.to_owned();
    r.append(more);
    r
}

fn write_reports(reports: &Vec<DependencyReport>, indent: &str, out: &mut String)
    ensures
        final(out)@ == old(out)@ + report_lines(report_views(reports@), indent@),
{
    let ghost rv = report_views(reports@);
    let ghost start = out@;
    let mut i: usize = 0;
    proof {
        assert(rv.subrange(0, 0) =~= Seq::<DependencyReportView>::empty());
        assert(out@ =~= start + report_lines(rv.subrange(0, 0), indent@));
    }
    while i < reports.len()
        invariant
            i <= reports@.len(),
            rv == report_views(reports@),
            out@ == start + report_lines(rv.subrange(0, i as int), indent@),
        decreases reports@.len() - i,
    {
        let ghost before = out@;
        let r = &reports[i];
        proof {
            let next = rv.subrange(0, i + 1);
            assert(next.drop_last() =~= rv.subrange(0, i as int));
            assert(next.last() == r@);
        }
        out.append(indent);
        out.append("    ");
        out.append(r.package.as_str());
        out.append("@");
        out.append(r.version.as_str());
        out.append(" (");
        let eco = r.ecosystem.to_string();
        out.append(eco.as_str());
        out.append("):\n");
        let ghost head = out@;
        let deeper = extended(indent, "      ");
        write_advisories(&r.advisories, deeper.as_str(), out);
        proof {
            assert(head =~= before + (indent@ + "    "@ + r@.package + "@"@ + r@.version + " ("@
                + ecosystem_name(r@.ecosystem) + "):\n"@));
            assert(out@ =~= before + report_text(r@, indent@));
            assert(out@ =~= start + (report_lines(rv.subrange(0, i as int), indent@)
                + report_text(r@, indent@)));
        }
        i = i + 1;
    }
    proof {
        assert(rv.subrange(0, rv.len() as int) =~= rv);
    }
}

fn write_scan(scan: &Option<ScanResult>, indent: &str, out: &mut String)
    ensures
        final(out)@ == old(out)@ + scan_text(opt_scan(*scan), indent@),
{
    let ghost start = out@;
    match scan {
        None => {
            assert(out@ =~= start + Seq::<char>::empty());
        },
        Some(s) => {
            match &s.primary_language {
                Some(l) => {
                    out.append(indent);
                    out.append("  language: ");
                    out.append(l.as_str());
                    out.append("\n");
                },
                None => {},
            }
            let ghost mid = out@;
            if s.ecosystems.len() > 0 {
                let mut names: Vec<String> = Vec::new();
                let mut i: usize = 0;
                while i < s.ecosystems.len()
                    invariant
                        i <= s.ecosystems@.len(),
                        names@.len() == i,
                        forall|k: int|
                            0 <= k < i ==> names@[k]@ == ecosystem_name(s.ecosystems@[k]),
                    decreases s.ecosystems@.len() - i,
                {
                    names.push(s.ecosystems[i].to_string());
                    i = i + 1;
                }
                assert(texts(names@) =~= ecosystem_names(s.ecosystems@));
                out.append(indent);
                out.append("  ecosystems: ");
                let list = join(&names, ", ");
                out.append(list.as_str());
                out.append("\n");
            }
            proof {
                let language = match s@.primary_language {
                    Some(l) => indent@ + "  language: "@ + l + "\n"@,
                    None => Seq::empty(),
                };
                let ecosystems = if s@.ecosystems.len() > 0 {
                    indent@ + "  ecosystems: "@ + joined(ecosystem_names(s@.ecosystems), ", "@)
                        + "\n"@
                } else {
                    Seq::empty()
                };
                assert(mid =~= start + language);
                assert(out@ =~= mid + ecosystems);
                assert(out@ =~= start + (language + ecosystems));
            }
        },
    }
}

/// The first lines of an entry: the action and, where it was resolved,
/// its commit.
pub open spec fn head_text(e: ActionEntryView, indent: Seq<char>) -> Seq<char> {
    indent + e.action.raw + "\n"@ + (match e.resolved_sha {
        Some(s) => indent + "  sha: "@ + s + "\n"@,
        None => Seq::empty(),
    })
}

/// The advisory lines of an entry.
pub open spec fn advisories_text(advs: Seq<AdvisoryView>, indent: Seq<char>) -> Seq<char> {
    if advs.len() == 0 {
        indent + "  advisories: none\n"@
    } else {
        advisory_lines(advs, indent + "  "@)
    }
}

/// The dependency lines of an entry.
pub open spec fn dependencies_text(reports: Seq<DependencyReportView>, indent: Seq<char>) -> Seq<
    char,
> {
    if reports.len() == 0 {
        Seq::empty()
    } else {
        indent + "  dependency vulnerabilities:\n"@ + report_lines(reports, indent)
    }
}

/// An entry is its head, its scan, its advisories and its dependencies.
pub proof fn lemma_entry_text(e: ActionEntryView, indent: Seq<char>)
    ensures
        entry_text(e, indent) == head_text(e, indent) + scan_text(e.scan, indent)
            + advisories_text(e.advisories, indent) + dependencies_text(
            e.dep_vulnerabilities,
            indent,
        ),
{
    let head = indent + e.action.raw + "\n"@;
    let sha = match e.resolved_sha {
        Some(s) => indent + "  sha: "@ + s + "\n"@,
        None => Seq::empty(),
    };
    assert(head_text(e, indent) =~= head + sha);
}

fn write_head(entry: &ActionEntry, indent: &str, out: &mut String)
    ensures
        final(out)@ == old(out)@ + head_text(entry@, indent@),
{
    let ghost start = out@;
    out.append(indent);
    out.append(entry.action.raw.as_str());
    out.append("\n");
    let ghost s1 = out@;
    match &entry.resolved_sha {
        Some(sha) => {
            out.append(indent);
            out.append("  sha: ");
            out.append(sha.as_str());
            out.append("\n");
            assert(out@ =~= s1 + (indent@ + "  sha: "@ + sha@ + "\n"@));
        },
        None => {
            assert(out@ =~= s1 + Seq::<char>::empty());
        },
    }
    assert(s1 =~= start + (indent@ + entry@.action.raw + "\n"@));
    assert(out@ =~= start + head_text(entry@, indent@));
}

fn write_advisory_block(advs: &Vec<Advisory>, indent: &str, out: &mut String)
    ensures
        final(out)@ == old(out)@ + advisories_text(advisory_views(advs@), indent@),
{
    let ghost start = out@;
    if advs.len() == 0 {
        out.append(indent);
        out.append("  advisories: none\n");
        assert(out@ =~= start + (indent@ + "  advisories: none\n"@));
    } else {
        let deeper = extended(indent, "  ");
        write_advisories(advs, deeper.as_str(), out);
    }
}

fn write_dependency_block(reports: &Vec<DependencyReport>, indent: &str, out: &mut String)
    ensures
        final(out)@ == old(out)@ + dependencies_text(report_views(reports@), indent@),
{
    let ghost start = out@;
    if reports.len() > 0 {
        out.append(indent);
        out.append("  dependency vulnerabilities:\n");
        write_reports(reports, indent, out);
        assert(out@ =~= start + (indent@ + "  dependency vulnerabilities:\n"@ + report_lines(
            report_views(reports@),
            indent@,
        )));
    } else {
        assert(out@ =~= start + Seq::<char>::empty());
    }
}

fn write_entry(entry: &ActionEntry, indent: &str, out: &mut String)
    ensures
        final(out)@ == old(out)@ + entry_text(entry@, indent@),
{
    let ghost start = out@;
    let ghost e = entry@;
    write_head(entry, indent, out);
    write_scan(&entry.scan, indent, out);
    write_advisory_block(&entry.advisories, indent, out);
    write_dependency_block(&entry.dep_vulnerabilities, indent, out);
    proof {
        lemma_entry_text(e, indent@);
        assert(out@ =~= start + (head_text(e, indent@) + scan_text(e.scan, indent@)
            + advisories_text(e.advisories, indent@) + dependencies_text(
            e.dep_vulnerabilities,
            indent@,
        )));
    }
}

/// Writes a node and the nodes under it at the indentation `indent`.
pub fn write_node(node: &AuditNode, indent: &str, out: &mut String)
    ensures
        final(out)@ == old(out)@ + entry_text(node@.entry, indent@) + forest_text(
            node@.children,
            indent@ + "  "@,
        ),
    decreases node,
{
    let ghost start = out@;
    proof {
        lemma_node_view(*node);
    }
    write_entry(&node.entry, indent, out);
    let ghost s1 = out@;
    let deeper = extended(indent, "  ");
    let ghost cv = node_views(node.children@);
    let mut i: usize = 0;
    proof {
        assert(cv.subrange(0, 0) =~= Seq::<AuditNodeView>::empty());
        assert(out@ =~= s1 + forest_text(cv.subrange(0, 0), deeper@));
    }
    while i < node.children.len()
        invariant
            i <= node.children@.len(),
            cv == node_views(node.children@),
            deeper@ == indent@ + "  "@,
            out@ == s1 + forest_text(cv.subrange(0, i as int), deeper@),
        decreases node.children@.len() - i,
    {
        let ghost before = out@;
        let child = &node.children[i];
        proof {
            let next = cv.subrange(0, i + 1);
            assert(next.drop_last() =~= cv.subrange(0, i as int));
            assert(next.last() == child@);
        }
        write_node(child, deeper.as_str(), out);
        proof {
            assert(out@ =~= s1 + (forest_text(cv.subrange(0, i as int), deeper@) + entry_text(
                child@.entry,
                deeper@,
            ) + forest_text(child@.children, deeper@ + "  "@)));
        }
        i = i + 1;
    }
    proof {
        assert(cv.subrange(0, cv.len() as int) =~= cv);
        assert(out@ =~= start + entry_text(node@.entry, indent@) + forest_text(
            node@.children,
            indent@ + "  "@,
        ));
    }
}

/// A way to show the result tree.
pub trait OutputFormatter {
    /// The tree as text, or why it could not be written.
    fn render(&self, nodes: &Vec<AuditNode>) -> Result<String, String>;
}

/// The human-readable form: one block for each action, the blocks of its
/// children two spaces further in.
pub struct TextOutput;

impl TextOutput {
    /// The tree as indented text.
    pub fn write_results(&self, nodes: &Vec<AuditNode>) -> (out: String)
        ensures
            out@ == forest_text(node_views(nodes@), Seq::empty()),
    {
        let ghost nv = node_views(nodes@);
        let mut out = String::new();
        let mut i: usize = 0;
        proof {
            reveal_strlit("");
            assert(""@ =~= Seq::<char>::empty());
            assert(nv.subrange(0, 0) =~= Seq::<AuditNodeView>::empty());
        }
        while i < nodes.len()
            invariant
                i <= nodes@.len(),
                nv == node_views(nodes@),
                ""@ == Seq::<char>::empty(),
                out@ == forest_text(nv.subrange(0, i as int), Seq::empty()),
            decreases nodes@.len() - i,
        {
            let ghost before = out@;
            proof {
                let next = nv.subrange(0, i + 1);
                assert(next.drop_last() =~= nv.subrange(0, i as int));
                assert(next.last() == nodes@[i as int]@);
                assert(Seq::<char>::empty() + "  "@ =~= "  "@);
            }
            write_node(&nodes[i], "", &mut out);
            proof {
                assert(""@ + "  "@ =~= Seq::<char>::empty() + "  "@);
            }
            i = i + 1;
        }
        proof {
            assert(nv.subrange(0, nv.len() as int) =~= nv);
        }
        out
    }
}

impl OutputFormatter for TextOutput {
    fn render(&self, nodes: &Vec<AuditNode>) -> (r: Result<String, String>)
        ensures
            r matches Ok(out) && out@ == forest_text(node_views(nodes@), Seq::empty()),
    {
        Ok(self.write_results(nodes))
    }
}

impl OutputFormatter for JsonOutput {
    fn render(&self, nodes: &Vec<AuditNode>) -> (r: Result<String, String>)
        ensures
            match json_text(node_views(nodes@)) {
                Some(t) => r matches Ok(s) && s@ == t,
                None => r is Err,
            },
    {
        self.write_results(nodes)
    }
}

/// One of the two formats, chosen when the program runs.
pub enum AnyOutput {
    Text(TextOutput),
    Json(JsonOutput),
}

impl OutputFormatter for AnyOutput {
    fn render(&self, nodes: &Vec<AuditNode>) -> (r: Result<String, String>)
        ensures
            self is Text ==> (r matches Ok(out) && out@ == forest_text(
                node_views(nodes@),
                Seq::empty(),
            )),
            self is Json ==> (match json_text(node_views(nodes@)) {
                Some(t) => r matches Ok(s) && s@ == t,
                None => r is Err,
            }),
    {
        match self {
            AnyOutput::Text(t) => t.render(nodes),
            AnyOutput::Json(j) => j.render(nodes),
        }
    }
}

/// The formatter for the chosen format: JSON where it is asked for, else
/// text.
pub fn formatter(json: bool) -> (f: AnyOutput)
    ensures
        f is Json <==> json,
{
    if json {
        AnyOutput::Json(JsonOutput)
    } else {
        AnyOutput::Text(TextOutput)
    }
}

} // verus!
