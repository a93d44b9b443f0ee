//! The forge as the library sees it: which addresses to ask, and what the
//! answers mean. Sending the requests is left to the caller.
use crate::action_ref::{ActionRef, ActionRefView, RefType};
use crate::json::{json_document, member, parse_json, text_of, Json, JsonTree};
use crate::scan::member2;
use crate::text::{decimal, decimal_of};
use vstd::prelude::*;

verus! {

/// Something to fetch.
#[derive(Debug)]
pub enum Request {
    /// A file of a repository at a ref, from the raw-content host.
    Raw { owner: String, repo: String, git_ref: String, path: String },
    /// A `GET` on the REST API, by path below the API's base address.
    Api { path: String },
    /// A GraphQL query; needs a token.
    Graphql { query: String },
    /// A query of the public vulnerability database for one package.
    Osv { package: String, ecosystem: String },
}

/// Mathematical value of a [`Request`].
pub enum RequestView {
    Raw { owner: Seq<char>, repo: Seq<char>, git_ref: Seq<char>, path: Seq<char> },
    Api { path: Seq<char> },
    Graphql { query: Seq<char> },
    Osv { package: Seq<char>, ecosystem: Seq<char> },
}

impl View for Request {
    type V = RequestView;

    open spec fn view(&self) -> RequestView {
        match *self {
            Request::Raw { owner, repo, git_ref, path } => RequestView::Raw {
                owner: owner@,
                repo: repo@,
                git_ref: git_ref@,
                path: path@,
            },
            Request::Api { path } => RequestView::Api { path: path@ },
            Request::Graphql { query } => RequestView::Graphql { query: query@ },
            Request::Osv { package, ecosystem } => RequestView::Osv {
                package: package@,
                ecosystem: ecosystem@,
            },
        }
    }
}

/// What came back for a request.
#[derive(Debug)]
pub enum Reply {
    /// Status 2xx, with the body as text.
    Body(String),
    /// Status 404.
    Missing,
    /// Any other status, or no answer at all, with a description.
    Failed(String),
}

/// The path of the raw-content host for a file: `/owner/repo/ref/path`.
pub open spec fn raw_path(owner: Seq<char>, repo: Seq<char>, git_ref: Seq<char>, path: Seq<char>)
    -> Seq<char> {
    "/"@ + owner + "/"@ + repo + "/"@ + git_ref + "/"@ + path
}

/// The API path of a tag ref.
pub open spec fn tag_ref_path(a: ActionRefView) -> Seq<char> {
    "/repos/"@ + a.owner + "/"@ + a.repo + "/git/ref/tags/"@ + a.git_ref
}

/// The API path of a branch ref.
pub open spec fn branch_ref_path(a: ActionRefView) -> Seq<char> {
    "/repos/"@ + a.owner + "/"@ + a.repo + "/git/ref/heads/"@ + a.git_ref
}

/// The API path of a tag object.
pub open spec fn tag_object_path(a: ActionRefView, sha: Seq<char>) -> Seq<char> {
    "/repos/"@ + a.owner + "/"@ + a.repo + "/git/tags/"@ + sha
}

/// The API path that lists the advisories affecting a package.
pub open spec fn advisories_path(package: Seq<char>) -> Seq<char> {
    "/advisories?ecosystem=actions&affects="@ + package
}

fn path4(a: &str, b: &str, c: &str, d: &str, e: &str, f: &str) -> (r: String)
    ensures
        r@ == a@ + b@ + c@ + d@ + e@ + f@,
{
    let mut r = a.to_owned();
    r.append(b);
    r.append(c);
    r.append(d);
    r.append(e);
    r.append(f);
    r
}

/// The request for a file of the action's repository at its ref.
pub fn raw_request(action: &ActionRef, path: &str) -> (r: Request)
    ensures
        r@ == (RequestView::Raw {
            owner: action@.owner,
            repo: action@.repo,
            git_ref: action@.git_ref,
            path: path@,
        }),
{
    Request::Raw {
        owner: action.owner.clone(),
        repo: action.repo.clone(),
        git_ref: action.git_ref.clone(),
        path: path.to_owned(),
    }
}

/// The path of a raw file below the raw-content host.
pub fn raw_file_path(owner: &str, repo: &str, git_ref: &str, path: &str) -> (r: String)
    ensures
        r@ == raw_path(owner@, repo@, git_ref@, path@),
{
    let mut r = path4("/", owner, "/", repo, "/", git_ref);
    r.append("/");
    r.append(path);
    r
}

/// The request that lists the advisories affecting a package.
pub fn advisories_request(package: &str) -> (r: Request)
    ensures
        r@ == (RequestView::Api { path: advisories_path(package@) }),
{
    let mut path = "/advisories?ecosystem=actions&affects=".to_owned();
    path.append(package);
    Request::Api { path }
}

/// What a git ref points at.
#[derive(Debug)]
pub enum RefTarget {
    /// A commit, by its SHA.
    Commit(String),
    /// An annotated tag, by the SHA of the tag object.
    Tag(String),
}

/// Why a ref could not be resolved.
#[derive(Debug)]
pub enum ResolveError {
    /// The answer is no JSON.
    NotJson,
    /// The answer has no `object`.
    MissingObject,
    /// The object has no `type` that is a text.
    MissingType,
    /// The object has no `sha` that is a text.
    MissingSha,
    /// The object is neither a commit nor a tag.
    UnexpectedType(String),
    /// The ref is neither a tag nor a branch.
    NotFound,
    /// The tag object has no commit SHA.
    MissingCommit,
    /// The tag object is not there.
    TagMissing,
    /// The request failed.
    Transport(String),
}

/// Mathematical value of a [`RefTarget`].
pub enum RefTargetView {
    Commit(Seq<char>),
    Tag(Seq<char>),
}

/// The kinds of [`ResolveError`], without their texts.
pub enum ResolveFault {
    NotJson,
    MissingObject,
    MissingType,
    MissingSha,
    UnexpectedType(Seq<char>),
    NotFound,
    MissingCommit,
    TagMissing,
    Transport(Seq<char>),
}

impl View for RefTarget {
    type V = RefTargetView;

    open spec fn view(&self) -> RefTargetView {
        match *self {
            RefTarget::Commit(s) => RefTargetView::Commit(s@),
            RefTarget::Tag(s) => RefTargetView::Tag(s@),
        }
    }
}

impl View for ResolveError {
    type V = ResolveFault;

    open spec fn view(&self) -> ResolveFault {
        match *self {
            ResolveError::NotJson => ResolveFault::NotJson,
            ResolveError::MissingObject => ResolveFault::MissingObject,
            ResolveError::MissingType => ResolveFault::MissingType,
            ResolveError::MissingSha => ResolveFault::MissingSha,
            ResolveError::UnexpectedType(t) => ResolveFault::UnexpectedType(t@),
            ResolveError::NotFound => ResolveFault::NotFound,
            ResolveError::MissingCommit => ResolveFault::MissingCommit,
            ResolveError::TagMissing => ResolveFault::TagMissing,
            ResolveError::Transport(m) => ResolveFault::Transport(m@),
        }
    }
}

/// The description of a fault.
pub open spec fn fault_text(f: ResolveFault) -> Seq<char> {
    match f {
        ResolveFault::NotJson => "failed to parse JSON in ref response"@,
        ResolveFault::MissingObject => "missing 'object' in ref response"@,
        ResolveFault::MissingType => "missing 'type' in ref object"@,
        ResolveFault::MissingSha => "missing 'sha' in ref object"@,
        ResolveFault::UnexpectedType(t) => "unexpected ref object type: "@ + t,
        ResolveFault::NotFound => "ref not found as tag or branch"@,
        ResolveFault::MissingCommit => "missing commit sha in annotated tag"@,
        ResolveFault::TagMissing => "tag object returned HTTP 404"@,
        ResolveFault::Transport(m) => m,
    }
}

impl ResolveError {
    /// A one-line description.
    pub fn to_string(&self) -> (s: String)
        ensures
            s@ == fault_text(self@),
    {
        match self {
            ResolveError::NotJson => "failed to parse JSON in ref response".to_owned(),
            ResolveError::MissingObject => "missing 'object' in ref response".to_owned(),
            ResolveError::MissingType => "missing 'type' in ref object".to_owned(),
            ResolveError::MissingSha => "missing 'sha' in ref object".to_owned(),
            ResolveError::UnexpectedType(t) => {
                let mut s = "unexpected ref object type: ".to_owned();
                s.append(t.as_str());
                s
            },
            ResolveError::NotFound => "ref not found as tag or branch".to_owned(),
            ResolveError::MissingCommit => "missing commit sha in annotated tag".to_owned(),
            ResolveError::TagMissing => "tag object returned HTTP 404".to_owned(),
            ResolveError::Transport(m) => m.clone(),
        }
    }
}

/// What the answer to a ref request says: the commit or the tag object
/// that `object` names by `type` and `sha`.
pub open spec fn ref_target_of(t: JsonTree) -> Result<RefTargetView, ResolveFault> {
    match member(t, "object"@) {
        None => Err(ResolveFault::MissingObject),
        Some(obj) => match member(obj, "type"@) {
            Some(JsonTree::Text(kind)) => match member(obj, "sha"@) {
                Some(JsonTree::Text(sha)) => if kind == "commit"@ {
                    Ok(RefTargetView::Commit(sha))
                } else if kind == "tag"@ {
                    Ok(RefTargetView::Tag(sha))
                } else {
                    Err(ResolveFault::UnexpectedType(kind))
                },
                _ => Err(ResolveFault::MissingSha),
            },
            _ => Err(ResolveFault::MissingType),
        },
    }
}

/// Reads the answer to a ref request.
pub fn extract_commit_sha(ref_json: &Json) -> (r: Result<RefTarget, ResolveError>)
    ensures
        match r {
            Ok(t) => ref_target_of(ref_json@) == Ok::<RefTargetView, ResolveFault>(t@),
            Err(e) => ref_target_of(ref_json@) == Err::<RefTargetView, ResolveFault>(e@),
        },
{
    let obj = match ref_json.get("object") {
        Some(o) => o,
        None => {
            return Err(ResolveError::MissingObject);
        },
    };
    let kind = match obj.get("type") {
        Some(v) => match v.as_str() {
            Some(s) => s,
            None => {
                return Err(ResolveError::MissingType);
            },
        },
        None => {
            return Err(ResolveError::MissingType);
        },
    };
    let sha = match obj.get("sha") {
        Some(v) => match v.as_str() {
            Some(s) => s,
            None => {
                return Err(ResolveError::MissingSha);
            },
        },
        None => {
            return Err(ResolveError::MissingSha);
        },
    };
    if crate::text::same_text(kind, "commit") {
        Ok(RefTarget::Commit(sha.to_owned()))
    } else if crate::text::same_text(kind, "tag") {
        Ok(RefTarget::Tag(sha.to_owned()))
    } else {
        Err(ResolveError::UnexpectedType(kind.to_owned()))
    }
}

/// The commit that a tag object names: `object.sha`, where it is a text.
pub open spec fn tag_commit_of(t: JsonTree) -> Option<Seq<char>> {
    match member2(t, "object"@, "sha"@) {
        Some(JsonTree::Text(sha)) => Some(sha),
        _ => None,
    }
}

/// Reads the commit out of the answer for a tag object.
pub fn tag_commit(tag_json: &Json) -> (r: Option<String>)
    ensures
        crate::text::opt_text(r) == tag_commit_of(tag_json@),
{
    match tag_json.get("object") {
        Some(obj) => match obj.get("sha") {
            Some(v) => match v.as_str() {
                Some(s) => Some(s.to_owned()),
                None => None,
            },
            None => None,
        },
        None => None,
    }
}

/// Mathematical value of a [`Reply`].
pub enum ReplyView {
    Body(Seq<char>),
    Missing,
    Failed(Seq<char>),
}

impl View for Reply {
    type V = ReplyView;

    open spec fn view(&self) -> ReplyView {
        match *self {
            Reply::Body(t) => ReplyView::Body(t@),
            Reply::Missing => ReplyView::Missing,
            Reply::Failed(m) => ReplyView::Failed(m@),
        }
    }
}

/// Whether a response with this status carries a body to read: 2xx.
pub open spec fn is_success(status: u16) -> bool {
    200 <= status <= 299
}

/// What a response from `url` means: status 404 is a missing resource;
/// a status 2xx hands over the body; any other status is a failure that
/// names the address and the status.
pub open spec fn reply_of(url: Seq<char>, status: u16, body: Seq<char>) -> ReplyView {
    if status == 404 {
        ReplyView::Missing
    } else if is_success(status) {
        ReplyView::Body(body)
    } else {
        ReplyView::Failed(url + " returned HTTP "@ + decimal_of(status as nat))
    }
}

/// Whether the body of a response with this status is to be read.
pub fn carries_body(status: u16) -> (r: bool)
    ensures
        r == is_success(status),
{
    200 <= status && status <= 299
}

/// Reads a response: its status decides whether the resource is missing,
/// the body is handed over, or the request failed.
pub fn read_response(url: &str, status: u16, body: String) -> (r: Reply)
    ensures
        r@ == reply_of(url@, status, body@),
{
    if status == 404 {
        Reply::Missing
    } else if carries_body(status) {
        Reply::Body(body)
    } else {
        let mut message = url.to_owned();
        message.append(" returned HTTP ");
        let number = decimal(status as usize);
        message.append(number.as_str());
        Reply::Failed(message)
    }
}

/// The reply to a request that is not sent: a query of the scan needs a
/// token, and without one it fails before anything is sent. Every other
/// request is sent.
pub open spec fn refusal(request: RequestView, has_token: bool) -> Option<ReplyView> {
    if request is Graphql && !has_token {
        Some(ReplyView::Failed("GitHub token is required for GraphQL API"@))
    } else {
        None
    }
}

/// Says whether a request is refused before it is sent, and with what.
pub fn refused(request: &Request, has_token: bool) -> (r: Option<Reply>)
    ensures
        match r {
            Some(reply) => refusal(request@, has_token) == Some(reply@),
            None => refusal(request@, has_token) is None,
        },
{
    match request {
        Request::Graphql { .. } => {
            if has_token {
                None
            } else {
                Some(Reply::Failed("GitHub token is required for GraphQL API".to_owned()))
            }
        },
        _ => None,
    }
}

/// The request for an API path.
pub fn api_request(path: String) -> (r: Request)
    ensures
        r@ == (RequestView::Api { path: path@ }),
{
    Request::Api { path }
}

/// The API path of the tag ref of an action.
pub fn tag_ref(action: &ActionRef) -> (p: String)
    ensures
        p@ == tag_ref_path(action@),
{
    path4(
        "/repos/",
        action.owner.as_str(),
        "/",
        action.repo.as_str(),
        "/git/ref/tags/",
        action.git_ref.as_str(),
    )
}

/// The API path of the branch ref of an action.
pub fn branch_ref(action: &ActionRef) -> (p: String)
    ensures
        p@ == branch_ref_path(action@),
{
    path4(
        "/repos/",
        action.owner.as_str(),
        "/",
        action.repo.as_str(),
        "/git/ref/heads/",
        action.git_ref.as_str(),
    )
}

/// The API path of a tag object of an action's repository.
pub fn tag_object(action: &ActionRef, sha: &str) -> (p: String)
    ensures
        p@ == tag_object_path(action@, sha@),
{
    path4("/repos/", action.owner.as_str(), "/", action.repo.as_str(), "/git/tags/", sha)
}

/// Why the answer to a GraphQL query is of no use.
#[derive(Debug, Clone, Copy, PartialEq, Eq, Structural)]
pub enum GraphqlError {
    /// The answer carries `errors`.
    Errors,
    /// The answer has no `data`.
    MissingData,
}

impl GraphqlError {
    /// A one-line description.
    pub fn to_string(&self) -> (s: String)
        ensures
            s@ == (match *self {
                GraphqlError::Errors => "GraphQL errors in response"@,
                GraphqlError::MissingData => "missing 'data' field in GraphQL response"@,
            }),
    {
        match self {
            GraphqlError::Errors => "GraphQL errors in response".to_owned(),
            GraphqlError::MissingData => "missing 'data' field in GraphQL response".to_owned(),
        }
    }
}

/// The `data` of an answer to a GraphQL query. An answer with an `errors`
/// member is a failure, whatever that member holds.
pub fn graphql_data(answer: &Json) -> (r: Result<&Json, GraphqlError>)
    ensures
        match r {
            Ok(d) => member(answer@, "errors"@) is None && member(answer@, "data"@) == Some(d@),
            Err(GraphqlError::Errors) => member(answer@, "errors"@) is Some,
            Err(GraphqlError::MissingData) => member(answer@, "errors"@) is None && member(
                answer@,
                "data"@,
            ) is None,
        },
{
    match answer.get("errors") {
        Some(_) => Err(GraphqlError::Errors),
        None => match answer.get("data") {
            Some(d) => Ok(d),
            None => Err(GraphqlError::MissingData),
        },
    }
}

} // verus!
