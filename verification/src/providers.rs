//! Advisory sources: the two interfaces under which they are asked, the
//! selection of sources by name, and what their answers mean.
use crate::action_ref::{ActionRef, ActionRefView};
use crate::advisory::{advisory_views, Advisory, AdvisoryView};
use crate::ghsa::{ghsa_advisories, parse_advisories};
use crate::github::{advisories_path, Reply, Request, RequestView};
use crate::json::{json_document, parse_json};
use crate::osv::{osv_advisories, parse_osv_response};
use crate::text::same_text;
use vstd::prelude::*;

verus! {

/// What a source answered, as a mathematical value.
pub open spec fn answer_view(r: Result<Vec<Advisory>, String>) -> Result<
    Seq<AdvisoryView>,
    Seq<char>,
> {
    match r {
        Ok(v) => Ok(advisory_views(v@)),
        Err(e) => Err(e@),
    }
}

/// A source of advisories about actions, asked by reference.
pub trait ActionAdvisoryProvider: Send + Sync {
    /// Whether `r` may be the source's answer about `action`. A source
    /// that states nothing of its answers leaves this as it is.
    open spec fn answers(
        &self,
        action: ActionRefView,
        r: Result<Seq<AdvisoryView>, Seq<char>>,
    ) -> bool {
        true
    }

    /// Whether `s` may be the source's name. A source that states nothing
    /// of its name leaves this as it is.
    open spec fn named(&self, s: Seq<char>) -> bool {
        true
    }

    /// The advisories that affect `action`, or why they could not be had.
    fn query(&self, action: &ActionRef) -> (r: Result<Vec<Advisory>, String>)
        ensures
            self.answers(action@, answer_view(r)),
    ;

    /// A stable name, used when a failure is recorded.
    fn name(&self) -> (s: &'static str)
        ensures
            self.named(s@),
    ;
}

/// A source of advisories about packages, asked by name and ecosystem.
pub trait PackageAdvisoryProvider: Send + Sync {
    /// Whether `r` may be the source's answer about `package` in
    /// `ecosystem`. A source that states nothing of its answers leaves
    /// this as it is.
    open spec fn answers(
        &self,
        package: Seq<char>,
        ecosystem: Seq<char>,
        r: Result<Seq<AdvisoryView>, Seq<char>>,
    ) -> bool {
        true
    }

    /// Whether `s` may be the source's name. A source that states nothing
    /// of its name leaves this as it is.
    open spec fn named(&self, s: Seq<char>) -> bool {
        true
    }

    /// The advisories that affect `package` in `ecosystem`.
    fn query(&self, package: &str, ecosystem: &str) -> (r: Result<Vec<Advisory>, String>)
        ensures
            self.answers(package@, ecosystem@, answer_view(r)),
    ;

    /// A stable name, used when a failure is recorded.
    fn name(&self) -> (s: &'static str)
        ensures
            self.named(s@),
    ;
}

/// The sources that the library knows.
#[derive(Debug, Clone, Copy, PartialEq, Eq, Structural)]
pub enum ProviderKind {
    /// The forge's own advisory index.
    Ghsa,
    /// The public vulnerability database.
    Osv,
}

/// A selector that names no source.
#[derive(Debug)]
pub struct UnknownProvider {
    /// The selector as it was given.
    pub selector: String,
}

impl UnknownProvider {
    /// A one-line description, with the selectors that are valid.
    pub fn to_string(&self) -> (s: String)
        ensures
            s@ == "unknown provider: "@ + self.selector@ + " (valid: ghsa, osv, all)"@,
    {
        let mut s = "unknown provider: ".to_owned();
        s.append(self.selector.as_str());
        s.append(" (valid: ghsa, osv, all)");
        s
    }
}

impl ProviderKind {
    /// The name under which the source reports.
    pub fn name(&self) -> (n: &'static str)
        ensures
            n@ == (match *self {
                ProviderKind::Ghsa => "GHSA"@,
                ProviderKind::Osv => "OSV"@,
            }),
    {
        match self {
            ProviderKind::Ghsa => "GHSA",
            ProviderKind::Osv => "OSV",
        }
    }
}

/// The sources for actions that a selector names: `ghsa` the index, `osv`
/// the database, `all` both, the index first.
pub open spec fn action_sources(selector: Seq<char>) -> Option<Seq<ProviderKind>> {
    if selector == "ghsa"@ {
        Some(seq![ProviderKind::Ghsa])
    } else if selector == "osv"@ {
        Some(seq![ProviderKind::Osv])
    } else if selector == "all"@ {
        Some(seq![ProviderKind::Ghsa, ProviderKind::Osv])
    } else {
        None
    }
}

/// The sources for packages that a selector names: the database for `osv`
/// and `all`, none for `ghsa`.
pub open spec fn package_sources(selector: Seq<char>) -> Option<Seq<ProviderKind>> {
    if selector == "ghsa"@ {
        Some(Seq::empty())
    } else if selector == "osv"@ || selector == "all"@ {
        Some(seq![ProviderKind::Osv])
    } else {
        None
    }
}

/// Selects the sources for actions. An unknown selector is an error.
pub fn create_action_providers(provider: &str) -> (r: Result<Vec<ProviderKind>, UnknownProvider>)
    ensures
        match r {
            Ok(v) => action_sources(provider@) == Some(v@),
            Err(e) => action_sources(provider@) is None && e.selector@ == provider@,
        },
{
    let mut v: Vec<ProviderKind> = Vec::new();
    if same_text(provider, "ghsa") {
        v.push(ProviderKind::Ghsa);
    } else if same_text(provider, "osv") {
        v.push(ProviderKind::Osv);
    } else if same_text(provider, "all") {
        v.push(ProviderKind::Ghsa);
        v.push(ProviderKind::Osv);
    } else {
        return Err(UnknownProvider { selector: provider.to_owned() });
    }
    proof {
        assert(action_sources(provider@) is Some);
        assert(v@ =~= action_sources(provider@)->0);
    }
    Ok(v)
}

/// Selects the sources for packages. An unknown selector is an error.
pub fn create_package_providers(provider: &str) -> (r: Result<Vec<ProviderKind>, UnknownProvider>)
    ensures
        match r {
            Ok(v) => package_sources(provider@) == Some(v@),
            Err(e) => package_sources(provider@) is None && e.selector@ == provider@,
        },
{
    let mut v: Vec<ProviderKind> = Vec::new();
    if same_text(provider, "ghsa") {
    } else if same_text(provider, "osv") || same_text(provider, "all") {
        v.push(ProviderKind::Osv);
    } else {
        return Err(UnknownProvider { selector: provider.to_owned() });
    }
    proof {
        assert(package_sources(provider@) is Some);
        assert(v@ =~= package_sources(provider@)->0);
    }
    Ok(v)
}

/// The request that asks the index about an action.
pub fn ghsa_request(action: &ActionRef) -> (r: Request)
    ensures
        r@ == (RequestView::Api {
            path: advisories_path(crate::action_ref::package_name_spec(action@)),
        }),
{
    let name = action.package_name();
    crate::github::advisories_request(name.as_str())
}

/// The request that asks the database about an action.
pub fn osv_action_request(action: &ActionRef) -> (r: Request)
    ensures
        r@ == (RequestView::Osv {
            package: crate::action_ref::package_name_spec(action@),
            ecosystem: "GitHub Actions"@,
        }),
{
    Request::Osv { package: action.package_name(), ecosystem: "GitHub Actions".to_owned() }
}

/// The request that asks the database about a package.
pub fn osv_package_request(package: &str, ecosystem: &str) -> (r: Request)
    ensures
        r@ == (RequestView::Osv { package: package@, ecosystem: ecosystem@ }),
{
    Request::Osv { package: package.to_owned(), ecosystem: ecosystem.to_owned() }
}

/// Why an answer of a source gave no advisories.
#[derive(Debug)]
pub enum AnswerError {
    /// The source answered 404.
    Missing,
    /// The request failed; with the description.
    Transport(String),
    /// The answer is no JSON.
    NotJson,
    /// The answer has not the shape of the source's records.
    Shape,
}

impl AnswerError {
    /// A one-line description.
    pub fn to_string(&self) -> (s: String)
        ensures
            s@ == (match *self {
                AnswerError::Missing => "advisory source returned HTTP 404"@,
                AnswerError::Transport(m) => m@,
                AnswerError::NotJson => "failed to parse advisory response"@,
                AnswerError::Shape => "failed to deserialize advisory response"@,
            }),
    {
        match self {
            AnswerError::Missing => "advisory source returned HTTP 404".to_owned(),
            AnswerError::Transport(m) => m.clone(),
            AnswerError::NotJson => "failed to parse advisory response".to_owned(),
            AnswerError::Shape => "failed to deserialize advisory response".to_owned(),
        }
    }
}

/// What an answer of `kind` means: the advisories it lists, or why it
/// lists none.
pub fn read_answer(kind: ProviderKind, reply: &Reply) -> (r: Result<Vec<Advisory>, AnswerError>)
    ensures
        match *reply {
            Reply::Missing => r matches Err(e) && e is Missing,
            Reply::Failed(m) => r matches Err(e) && e matches AnswerError::Transport(t) && t@
                == m@,
            Reply::Body(text) => match json_document(text@) {
                None => r matches Err(e) && e is NotJson,
                Some(t) => {
                    let listed = match kind {
                        ProviderKind::Ghsa => ghsa_advisories(t),
                        ProviderKind::Osv => osv_advisories(t),
                    };
                    match listed {
                        Some(advs) => r matches Ok(v) && advisory_views(v@) == advs,
                        None => r matches Err(e) && e is Shape,
                    }
                },
            },
        },
{
    match reply {
        Reply::Missing => Err(AnswerError::Missing),
        Reply::Failed(m) => Err(AnswerError::Transport(m.clone())),
        Reply::Body(text) => match parse_json(text.as_str()) {
            Err(_) => Err(AnswerError::NotJson),
            Ok(doc) => {
                let listed = match kind {
                    ProviderKind::Ghsa => parse_advisories(&doc),
                    ProviderKind::Osv => parse_osv_response(&doc),
                };
                match listed {
                    Ok(v) => Ok(v),
                    Err(_) => Err(AnswerError::Shape),
                }
            },
        },
    }
}

} // verus!
