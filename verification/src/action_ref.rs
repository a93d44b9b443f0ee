//! The reference model: `owner/repo[/path]@ref`, parsed once and then
//! immutable.
use crate::text::{
    chars_of, copy_opt, find_char, index_of, opt_text, order_of, same_opt, same_text, slice_of,
    sub_chars, text_less,
};
use std::cmp::Ordering;
use std::str::FromStr;
use vstd::prelude::*;
use vstd::std_specs::cmp::{PartialEqSpecImpl, PartialOrdSpecImpl};

verus! {

/// What kind of git ref stands after the `@`.
#[derive(Debug, Clone, Copy, PartialEq, Eq, Structural)]
pub enum RefType {
    /// Exactly 40 hexadecimal characters.
    Sha,
    /// An optional `v`, then a decimal digit.
    Tag,
    /// Anything else: a branch name, most often.
    Unknown,
}

impl RefType {
    /// Lower-case name of the variant.
    pub fn to_string(&self) -> (s: String)
        ensures
            s@ == match *self {
                RefType::Sha => "sha"@,
                RefType::Tag => "tag"@,
                RefType::Unknown => "unknown"@,
            },
    {
        match self {
            RefType::Sha => "sha".to_owned(),
            RefType::Tag => "tag".to_owned(),
            RefType::Unknown => "unknown".to_owned(),
        }
    }
}

/// Why a string is no action reference.
#[derive(Debug, Clone, Copy, PartialEq, Eq, Structural)]
pub enum RefParseError {
    /// There is no `@`.
    MissingAt,
    /// There is no `/` before the `@`.
    MissingRepo,
    /// Nothing stands before the first `/`.
    EmptyOwner,
    /// Nothing stands between the first `/` and the next `/` or the `@`.
    EmptyRepo,
}

impl RefParseError {
    /// A one-line description.
    pub fn to_string(&self) -> (s: String)
        ensures
            s@ == match *self {
                RefParseError::MissingAt => "missing '@' in action reference"@,
                RefParseError::MissingRepo => "expected owner/repo in action reference"@,
                RefParseError::EmptyOwner => "empty owner in action reference"@,
                RefParseError::EmptyRepo => "empty repo in action reference"@,
            },
    {
        match self {
            RefParseError::MissingAt => "missing '@' in action reference".to_owned(),
            RefParseError::MissingRepo => "expected owner/repo in action reference".to_owned(),
            RefParseError::EmptyOwner => "empty owner in action reference".to_owned(),
            RefParseError::EmptyRepo => "empty repo in action reference".to_owned(),
        }
    }
}

/// A parsed action or reusable-workflow reference.
#[derive(Debug)]
pub struct ActionRef {
    /// The string as it was written; display only.
    pub raw: String,
    pub owner: String,
    pub repo: String,
    /// Sub-directory or workflow file inside the repository.
    pub path: Option<String>,
    /// The text after the `@`.
    pub git_ref: String,
    pub ref_type: RefType,
}

/// Mathematical value of an [`ActionRef`].
pub struct ActionRefView {
    pub raw: Seq<char>,
    pub owner: Seq<char>,
    pub repo: Seq<char>,
    pub path: Option<Seq<char>>,
    pub git_ref: Seq<char>,
    pub ref_type: RefType,
}

impl View for ActionRef {
    type V = ActionRefView;

    open spec fn view(&self) -> ActionRefView {
        ActionRefView {
            raw: self.raw@,
            owner: self.owner@,
            repo: self.repo@,
            path: opt_text(self.path),
            git_ref: self.git_ref@,
            ref_type: self.ref_type,
        }
    }
}

impl DeepView for ActionRef {
    type V = ActionRefView;

    open spec fn deep_view(&self) -> ActionRefView {
        self@
    }
}

/// `0`-`9`, `a`-`f` or `A`-`F`.
pub open spec fn is_hex(c: char) -> bool {
    ||| 48 <= c as u32 <= 57
    ||| 97 <= c as u32 <= 102
    ||| 65 <= c as u32 <= 70
}

/// `0`-`9`.
pub open spec fn is_digit(c: char) -> bool {
    48 <= c as u32 <= 57
}

/// `r` without one leading `v`, if it has one.
pub open spec fn without_v(r: Seq<char>) -> Seq<char> {
    if r.len() > 0 && r[0] == 'v' {
        r.subrange(1, r.len() as int)
    } else {
        r
    }
}

/// Forty hexadecimal characters.
pub open spec fn is_sha(r: Seq<char>) -> bool {
    r.len() == 40 && forall|i: int| 0 <= i < 40 ==> is_hex(#[trigger] r[i])
}

/// After an optional `v`, the text starts with a decimal digit.
pub open spec fn is_tag_like(r: Seq<char>) -> bool {
    without_v(r).len() > 0 && is_digit(without_v(r)[0])
}

/// The class of a git ref: `Sha` for forty hexadecimal characters; else
/// `Tag` when a digit follows an optional `v`; else `Unknown`.
pub open spec fn classify_spec(r: Seq<char>) -> RefType {
    if is_sha(r) {
        RefType::Sha
    } else if is_tag_like(r) {
        RefType::Tag
    } else {
        RefType::Unknown
    }
}

/// What parsing `raw` gives: the reference, or the reason it is none.
pub open spec fn parse_spec(raw: Seq<char>) -> Result<ActionRefView, RefParseError> {
    let at = index_of(raw, '@');
    let name = raw.subrange(0, at);
    let git_ref = raw.subrange(at + 1, raw.len() as int);
    let s1 = index_of(name, '/');
    let rest = name.subrange(s1 + 1, name.len() as int);
    let s2 = index_of(rest, '/');
    if at >= raw.len() {
        Err(RefParseError::MissingAt)
    } else if s1 >= name.len() {
        Err(RefParseError::MissingRepo)
    } else if s1 == 0 {
        Err(RefParseError::EmptyOwner)
    } else if s2 == 0 {
        Err(RefParseError::EmptyRepo)
    } else {
        Ok(
            ActionRefView {
                raw,
                owner: name.subrange(0, s1),
                repo: rest.subrange(0, s2),
                path: if s2 < rest.len() {
                    Some(rest.subrange(s2 + 1, rest.len() as int))
                } else {
                    None
                },
                git_ref,
                ref_type: classify_spec(git_ref),
            },
        )
    }
}

/// Parse round trip: a reference holds the text it was parsed from, and
/// parsing that text again gives the same reference.
pub proof fn parse_round_trip(raw: Seq<char>)
    requires
        parse_spec(raw) is Ok,
    ensures
        parse_spec(raw)->Ok_0.raw == raw,
        parse_spec(parse_spec(raw)->Ok_0.raw) == parse_spec(raw),
{
}

/// `owner/repo`, followed by `/path` where there is a path.
pub open spec fn package_name_spec(a: ActionRefView) -> Seq<char> {
    match a.path {
        Some(p) => a.owner + seq!['/'] + a.repo + seq!['/'] + p,
        None => a.owner + seq!['/'] + a.repo,
    }
}

/// Strict order on optional texts: `None` first, then by text.
pub open spec fn opt_less(a: Option<Seq<char>>, b: Option<Seq<char>>) -> bool {
    match (a, b) {
        (None, None) => false,
        (None, Some(_)) => true,
        (Some(_), None) => false,
        (Some(x), Some(y)) => text_less(x, y),
    }
}

/// Identity of a reference: everything but `raw` and the derived class.
pub open spec fn same_key(a: ActionRefView, b: ActionRefView) -> bool {
    a.owner == b.owner && a.repo == b.repo && a.path == b.path && a.git_ref == b.git_ref
}

/// Strict order of references: by owner, then repo, then path, then ref.
pub open spec fn key_less(a: ActionRefView, b: ActionRefView) -> bool {
    if a.owner != b.owner {
        text_less(a.owner, b.owner)
    } else if a.repo != b.repo {
        text_less(a.repo, b.repo)
    } else if a.path != b.path {
        opt_less(a.path, b.path)
    } else {
        text_less(a.git_ref, b.git_ref)
    }
}

fn hex_char(c: char) -> (r: bool)
    ensures
        r == is_hex(c),
{
    let n: u32 = c as u32;
    (48 <= n && n <= 57) || (97 <= n && n <= 102) || (65 <= n && n <= 70)
}

fn digit_char(c: char) -> (r: bool)
    ensures
        r == is_digit(c),
{
    let n: u32 = c as u32;
    48 <= n && n <= 57
}

/// Classifies the text after the `@`.
pub fn classify_ref(git_ref: &str) -> (t: RefType)
    ensures
        t == classify_spec(git_ref@),
        t == RefType::Sha <==> is_sha(git_ref@),
        t == RefType::Tag <==> !is_sha(git_ref@) && is_tag_like(git_ref@),
{
    let r = chars_of(git_ref);
    if r.len() == 40 {
        let mut i: usize = 0;
        while i < 40 && hex_char(r[i])
            invariant
                i <= 40,
                r@.len() == 40,
                forall|j: int| 0 <= j < i ==> is_hex(#[trigger] r@[j]),
            decreases 40 - i,
        {
            i = i + 1;
        }
        if i == 40 {
            return RefType::Sha;
        }
    }
    let start: usize = if r.len() > 0 && r[0] == 'v' {
        1
    } else {
        0
    };
    if start < r.len() && digit_char(r[start]) {
        RefType::Tag
    } else {
        RefType::Unknown
    }
}

/// Three-way comparison of optional texts, `None` first.
fn order_of_opt(a: &Option<String>, b: &Option<String>) -> (r: i8)
    ensures
        r == -1 <==> opt_less(opt_text(*a), opt_text(*b)),
        r == 0 <==> opt_text(*a) == opt_text(*b),
        r == 1 <==> opt_less(opt_text(*b), opt_text(*a)),
        -1 <= r <= 1,
{
    match (a, b) {
        (None, None) => 0,
        (None, Some(_)) => -1,
        (Some(_), None) => 1,
        (Some(x), Some(y)) => order_of(x.as_str(), y.as_str()),
    }
}

impl ActionRef {
    /// The reference is what parsing its `raw` gives.
    pub open spec fn wf(&self) -> bool {
        parse_spec(self.raw@) == Ok::<ActionRefView, RefParseError>(self@)
    }

    /// Parses `owner/repo[/path]@ref`.
    pub fn parse(raw: &str) -> (r: Result<ActionRef, RefParseError>)
        ensures
            match r {
                Ok(a) => parse_spec(raw@) == Ok::<ActionRefView, RefParseError>(a@) && a.wf(),
                Err(e) => parse_spec(raw@) == Err::<ActionRefView, RefParseError>(e),
            },
    {
        let rv = chars_of(raw);
        let n = rv.len();
        let at = find_char(&rv, '@', 0);
        proof {
            assert(rv@.subrange(0, n as int) =~= rv@);
        }
        if at >= n {
            return Err(RefParseError::MissingAt);
        }
        let name = sub_chars(&rv, 0, at);
        let s1 = find_char(&name, '/', 0);
        proof {
            assert(name@.subrange(0, at as int) =~= name@);
        }
        if s1 >= at {
            return Err(RefParseError::MissingRepo);
        }
        if s1 == 0 {
            return Err(RefParseError::EmptyOwner);
        }
        let rest = sub_chars(&name, s1 + 1, at);
        let s2 = find_char(&rest, '/', 0);
        proof {
            assert(rest@.subrange(0, rest@.len() as int) =~= rest@);
        }
        if s2 == 0 {
            return Err(RefParseError::EmptyRepo);
        }
        let owner = slice_of(raw, 0, s1);
        let repo = slice_of(raw, s1 + 1, s1 + 1 + s2);
        let path = if s2 < rest.len() {
            Some(slice_of(raw, s1 + 1 + s2 + 1, at))
        } else {
            None
        };
        let git_ref = slice_of(raw, at + 1, n);
        let ref_type = classify_ref(git_ref.as_str());
        let out = ActionRef { raw: raw.to_owned(), owner, repo, path, git_ref, ref_type };
        proof {
            assert(out.owner@ =~= name@.subrange(0, s1 as int));
            assert(out.repo@ =~= rest@.subrange(0, s2 as int));
            if s2 < rest.len() {
                assert(out.path->0@ =~= rest@.subrange(s2 + 1, rest@.len() as int));
            }
        }
        Ok(out)
    }

    /// `owner/repo[/path]`: the name under which advisories are filed.
    pub fn package_name(&self) -> (s: String)
        ensures
            s@ == package_name_spec(self@),
    {
        proof {
            reveal_strlit("/");
            assert("/"@ =~= seq!['/']);
        }
        let mut s = self.owner.clone();
        s.append("/");
        s.append(self.repo.as_str());
        match &self.path {
            Some(p) => {
                s.append("/");
                s.append(p.as_str());
            },
            None => {},
        }
        s
    }

    /// The version of a tag, without its leading `v`; `None` for other refs.
    pub fn version(&self) -> (v: Option<&str>)
        ensures
            match v {
                Some(s) => self.ref_type == RefType::Tag && s@ == without_v(self.git_ref@),
                None => self.ref_type != RefType::Tag,
            },
    {
        if self.ref_type != RefType::Tag {
            return None;
        }
        let r = chars_of(self.git_ref.as_str());
        if r.len() > 0 && r[0] == 'v' {
            Some(self.git_ref.as_str().substring_char(1, r.len()))
        } else {
            Some(self.git_ref.as_str())
        }
    }

    /// The text that was parsed.
    pub fn to_string(&self) -> (s: String)
        ensures
            s@ == self.raw@,
    {
        self.raw.clone()
    }

    /// A copy, field by field.
    pub fn duplicate(&self) -> (c: ActionRef)
        ensures
            c@ == self@,
    {
        ActionRef {
            raw: self.raw.clone(),
            owner: self.owner.clone(),
            repo: self.repo.clone(),
            path: copy_opt(&self.path),
            git_ref: self.git_ref.clone(),
            ref_type: self.ref_type,
        }
    }

    /// Whether two references agree in every field.
    pub fn same_as(&self, other: &ActionRef) -> (r: bool)
        ensures
            r == (self@ == other@),
    {
        same_text(self.raw.as_str(), other.raw.as_str()) && same_text(
            self.owner.as_str(),
            other.owner.as_str(),
        ) && same_text(self.repo.as_str(), other.repo.as_str()) && same_opt(
            &self.path,
            &other.path,
        ) && same_text(self.git_ref.as_str(), other.git_ref.as_str()) && self.ref_type
            == other.ref_type
    }

    /// Three-way comparison by `(owner, repo, path, git_ref)`.
    pub fn order(&self, other: &ActionRef) -> (r: i8)
        ensures
            r == -1 <==> key_less(self@, other@),
            r == 0 <==> same_key(self@, other@),
            r == 1 <==> key_less(other@, self@),
            -1 <= r <= 1,
    {
        let a = order_of(self.owner.as_str(), other.owner.as_str());
        if a != 0 {
            return a;
        }
        let b = order_of(self.repo.as_str(), other.repo.as_str());
        if b != 0 {
            return b;
        }
        let c = order_of_opt(&self.path, &other.path);
        if c != 0 {
            return c;
        }
        order_of(self.git_ref.as_str(), other.git_ref.as_str())
    }
}

impl Clone for ActionRef {
    fn clone(&self) -> (c: ActionRef)
        ensures
            c@ == self@,
    {
        self.duplicate()
    }
}

impl FromStr for ActionRef {
    type Err = RefParseError;

    fn from_str(raw: &str) -> (r: Result<ActionRef, RefParseError>)
        ensures
            match r {
                Ok(a) => parse_spec(raw@) == Ok::<ActionRefView, RefParseError>(a@),
                Err(e) => parse_spec(raw@) == Err::<ActionRefView, RefParseError>(e),
            },
    {
        ActionRef::parse(raw)
    }
}

impl PartialEq for ActionRef {
    fn eq(&self, other: &ActionRef) -> (r: bool) {
        self.order(other) == 0
    }
}

impl Eq for ActionRef {

}

impl PartialEqSpecImpl for ActionRef {
    open spec fn obeys_eq_spec() -> bool {
        true
    }

    open spec fn eq_spec(&self, other: &ActionRef) -> bool {
        same_key(self@, other@)
    }
}

impl PartialOrd for ActionRef {
    fn partial_cmp(&self, other: &ActionRef) -> (r: Option<Ordering>) {
        let o = self.order(other);
        if o == 0 {
            Some(Ordering::Equal)
        } else if o == 1 {
            Some(Ordering::Greater)
        } else {
            Some(Ordering::Less)
        }
    }
}

impl PartialOrdSpecImpl for ActionRef {
    open spec fn obeys_partial_cmp_spec() -> bool {
        true
    }

    open spec fn partial_cmp_spec(&self, other: &ActionRef) -> Option<Ordering> {
        if same_key(self@, other@) {
            Some(Ordering::Equal)
        } else if key_less(other@, self@) {
            Some(Ordering::Greater)
        } else {
            Some(Ordering::Less)
        }
    }
}

} // verus!
