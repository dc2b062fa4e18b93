//! Remote addresses: parsing a git remote URL and deriving web links from it.
//!
//! Two shapes of URL are understood, `git@host:owner/repo.git` and
//! `http(s)://host/owner/repo.git`. Parsing runs in four stages, each of which
//! consumes a piece of the input and the separators that follow it.

use vstd::prelude::*;
use vstd::string::*;
use crate::text::{
    find, find_from, from_chars, has_prefix, lemma_find_first, lemma_find_none, lemma_find_none_absent, lemma_find_some, lemma_span_concat,
    lemma_span_is_end,
    matches_at, occurs_at, span, span_end, to_chars,
};

verus! {

/// The scheme word a remote URL starts with.
#[derive(Clone, Copy, Debug, PartialEq, Eq, Structural)]
pub enum Scheme {
    Git,
    Https,
    Http,
}

/// The hosting platform a remote lives on.
#[derive(Clone, Debug, PartialEq, Eq)]
pub enum Platform {
    Github,
    Gitlab,
    Other(String),
}

/// The stage of parsing at which a URL was rejected.
#[derive(Clone, Copy, Debug, PartialEq, Eq, Structural)]
pub enum ParseError {
    /// The input starts with none of the scheme words.
    Scheme,
    /// No `:` or `/` ends the host.
    Host,
    /// No `/` ends the owner.
    Owner,
    /// No `.git` ends the repository name.
    Repo,
}

/// Contains the address of the git repository.
/// git remote url can be two format:
/// * git@xxx.com:user/repo.git
/// * https://xxx.com/user/repo.git
#[derive(Clone, Debug)]
pub struct Remote {
    schema: Scheme,
    host: String,
    user: String,
    repo: String,
}

/// The mathematical content of a [`Remote`].
pub struct RemoteView {
    pub scheme: Scheme,
    pub host: Seq<char>,
    pub owner: Seq<char>,
    pub repo: Seq<char>,
}

impl View for Remote {
    type V = RemoteView;

    closed spec fn view(&self) -> RemoteView {
        RemoteView { scheme: self.schema, host: self.host@, owner: self.user@, repo: self.repo@ }
    }
}

/// The word that stands for a scheme at the start of a URL.
pub open spec fn scheme_word(scheme: Scheme) -> Seq<char> {
    match scheme {
        Scheme::Git => "git"@,
        Scheme::Https => "https"@,
        Scheme::Http => "http"@,
    }
}

/// Separators that may follow the scheme word.
pub open spec fn scheme_seps() -> Seq<char> {
    seq!['@', ':', '/']
}

/// Separators that may follow the host and the owner.
pub open spec fn path_seps() -> Seq<char> {
    seq![':', '/']
}

/// The one separator that ends the owner.
pub open spec fn slash() -> Seq<char> {
    seq!['/']
}

/// The scheme a URL starts with: the first of `git`, `https`, `http` that is
/// a prefix of it.
pub open spec fn leading_scheme(s: Seq<char>) -> Option<Scheme> {
    if has_prefix(s, "git"@) {
        Some(Scheme::Git)
    } else if has_prefix(s, "https"@) {
        Some(Scheme::Https)
    } else if has_prefix(s, "http"@) {
        Some(Scheme::Http)
    } else {
        None
    }
}

/// `s` without its leading run of characters from `seps`.
pub open spec fn skip_seps(s: Seq<char>, seps: Seq<char>) -> Seq<char> {
    s.skip(span(s, seps, true) as int)
}

/// First stage: the scheme word, then any run of `@`, `:`, `/`.
/// Gives what is left of the input and the scheme.
pub open spec fn spec_scheme(s: Seq<char>) -> Option<(Seq<char>, Scheme)> {
    match leading_scheme(s) {
        Some(scheme) => Some(
            (skip_seps(s.skip(scheme_word(scheme).len() as int), scheme_seps()), scheme),
        ),
        None => None,
    }
}

/// A field that runs up to the first character of `stops`, which must be
/// there, followed by any run of `:` and `/`. Gives what is left of the input
/// and the field.
pub open spec fn spec_field(s: Seq<char>, stops: Seq<char>) -> Option<(Seq<char>, Seq<char>)> {
    let n = span(s, stops, false) as int;
    if n < s.len() {
        Some((skip_seps(s.skip(n), path_seps()), s.take(n)))
    } else {
        None
    }
}

/// Second stage: the host, up to the first `:` or `/`.
pub open spec fn spec_host(s: Seq<char>) -> Option<(Seq<char>, Seq<char>)> {
    spec_field(s, path_seps())
}

/// Third stage: the owner, up to the first `/`.
pub open spec fn spec_owner(s: Seq<char>) -> Option<(Seq<char>, Seq<char>)> {
    spec_field(s, slash())
}

/// Fourth stage: the repository name, up to the first `.git`. What is left
/// of the input starts with that `.git`.
pub open spec fn spec_repo(s: Seq<char>) -> Option<(Seq<char>, Seq<char>)> {
    match find(s, ".git"@) {
        Some(k) => Some((s.skip(k), s.take(k))),
        None => None,
    }
}

/// The four stages in sequence, each on what the one before left over, and
/// the stage that fails first if one does.
pub open spec fn spec_parse(s: Seq<char>) -> Result<RemoteView, ParseError> {
    match spec_scheme(s) {
        None => Err(ParseError::Scheme),
        Some((after_scheme, scheme)) => match spec_host(after_scheme) {
            None => Err(ParseError::Host),
            Some((after_host, host)) => match spec_owner(after_host) {
                None => Err(ParseError::Owner),
                Some((after_owner, owner)) => match spec_repo(after_owner) {
                    None => Err(ParseError::Repo),
                    Some((_, repo)) => Ok(RemoteView { scheme, host, owner, repo }),
                },
            },
        },
    }
}

/// What every parsed address satisfies: no `:` or `/` in the host, no `/` in
/// the owner, and no `.git` anywhere in the repository name.
pub open spec fn well_formed(r: RemoteView) -> bool {
    &&& !r.host.contains(':')
    &&& !r.host.contains('/')
    &&& !r.owner.contains('/')
    &&& find(r.repo, ".git"@).is_none()
}

/// A field cut off by [`spec_field`] holds none of the stop characters.
pub proof fn lemma_field_has_no_stop(s: Seq<char>, stops: Seq<char>, c: char)
    requires
        spec_field(s, stops).is_some(),
        stops.contains(c),
    ensures
        !spec_field(s, stops).unwrap().1.contains(c),
{
    let n = span(s, stops, false) as int;
    let field = s.take(n);
    lemma_span_is_end(s, stops, false);
    if field.contains(c) {
        let j = choose|j: int| 0 <= j < field.len() && field[j] == c;
        assert(field[j] == s[j]);
    }
}

/// A name cut off by [`spec_repo`] holds no `.git`.
pub proof fn lemma_repo_has_no_suffix(s: Seq<char>)
    requires
        spec_repo(s).is_some(),
    ensures
        find(spec_repo(s).unwrap().1, ".git"@).is_none(),
{
    let needle = ".git"@;
    let k = find(s, needle).unwrap();
    let name = s.take(k);
    lemma_find_some(s, needle);
    assert forall|j: int| 0 <= j <= name.len() implies !occurs_at(name, needle, j) by {
        if occurs_at(name, needle, j) {
            assert(name.subrange(j, j + needle.len()) =~= s.subrange(j, j + needle.len()));
            assert(occurs_at(s, needle, j));
            assert(j < k) by {
                reveal_strlit(".git");
            }
        }
    }
    lemma_find_none(name, needle);
}

/// Whatever [`spec_parse`] accepts is [`well_formed`].
pub proof fn lemma_parse_well_formed(s: Seq<char>)
    requires
        spec_parse(s).is_ok(),
    ensures
        well_formed(spec_parse(s).unwrap()),
{
    let (after_scheme, _) = spec_scheme(s).unwrap();
    let (after_host, _) = spec_host(after_scheme).unwrap();
    let (after_owner, _) = spec_owner(after_host).unwrap();
    assert(path_seps().contains(':')) by {
        assert(path_seps()[0] == ':');
    }
    assert(path_seps().contains('/')) by {
        assert(path_seps()[1] == '/');
    }
    assert(slash().contains('/')) by {
        assert(slash()[0] == '/');
    }
    lemma_field_has_no_stop(after_scheme, path_seps(), ':');
    lemma_field_has_no_stop(after_scheme, path_seps(), '/');
    lemma_field_has_no_stop(after_host, slash(), '/');
    lemma_repo_has_no_suffix(after_owner);
}

/// Scans the scheme word and the separators after it. Returns where the
/// host starts.
fn scan_scheme(chars: &Vec<char>) -> (r: Option<(usize, Scheme)>)
    ensures
        match r {
            Some((next, scheme)) => next <= chars.len() && spec_scheme(chars@) == Some(
                (chars@.skip(next as int), scheme),
            ),
            None => spec_scheme(chars@).is_none(),
        },
{
    let git = to_chars("git");
    let https = to_chars("https");
    let http = to_chars("http");
    let (scheme, word_len) = if matches_at(chars, 0, &git) {
        (Scheme::Git, git.len())
    } else if matches_at(chars, 0, &https) {
        (Scheme::Https, https.len())
    } else if matches_at(chars, 0, &http) {
        (Scheme::Http, http.len())
    } else {
        return None;
    };
    let seps: Vec<char> = vec!['@', ':', '/'];
    assert(seps@ =~= scheme_seps());
    let next = span_end(chars, word_len, &seps, true);
    assert(chars@.skip(word_len as int).skip(next - word_len) =~= chars@.skip(next as int));
    Some((next, scheme))
}

/// Scans a field from `start` up to the first character of `stops` and the
/// run of `:` and `/` after it. Returns where the field ends and where the
/// next one starts.
fn scan_field(chars: &Vec<char>, start: usize, stops: &Vec<char>) -> (r: Option<(usize, usize)>)
    requires
        start <= chars.len(),
    ensures
        match r {
            Some((end, next)) => start <= end <= next <= chars.len() && spec_field(
                chars@.skip(start as int),
                stops@,
            ) == Some((chars@.skip(next as int), chars@.subrange(start as int, end as int))),
            None => spec_field(chars@.skip(start as int), stops@).is_none(),
        },
{
    let end = span_end(chars, start, stops, false);
    if end == chars.len() {
        return None;
    }
    let seps: Vec<char> = vec![':', '/'];
    assert(seps@ =~= path_seps());
    let next = span_end(chars, end, &seps, true);
    proof {
        let rest = chars@.skip(start as int);
        assert(rest.skip(end - start) =~= chars@.skip(end as int));
        assert(chars@.skip(end as int).skip(next - end) =~= chars@.skip(next as int));
        assert(rest.take(end - start) =~= chars@.subrange(start as int, end as int));
    }
    Some((end, next))
}

/// Scans the repository name from `start` up to the first `.git`. Returns
/// where the name ends.
fn scan_repo(chars: &Vec<char>, start: usize) -> (r: Option<usize>)
    requires
        start <= chars.len(),
    ensures
        match r {
            Some(end) => start <= end <= chars.len() && spec_repo(chars@.skip(start as int))
                == Some((chars@.skip(end as int), chars@.subrange(start as int, end as int))),
            None => spec_repo(chars@.skip(start as int)).is_none(),
        },
{
    let suffix = to_chars(".git");
    match find_from(chars, start, &suffix) {
        Some(k) => {
            proof {
                let rest = chars@.skip(start as int);
                assert(rest.skip(k as int) =~= chars@.skip(start + k));
                assert(rest.take(k as int) =~= chars@.subrange(start as int, start + k));
            }
            Some(start + k)
        },
        None => None,
    }
}

/// First stage of parsing: takes the scheme word and the separators after
/// it off the input.
pub fn schema_parser(input: &str) -> (r: Result<(String, Scheme), ParseError>)
    ensures
        match r {
            Ok((rest, scheme)) => spec_scheme(input@) == Some((rest@, scheme)),
            Err(e) => e == ParseError::Scheme && spec_scheme(input@).is_none(),
        },
{
    let chars = to_chars(input);
    match scan_scheme(&chars) {
        Some((next, scheme)) => Ok((from_chars(&chars, next, chars.len()), scheme)),
        None => Err(ParseError::Scheme),
    }
}

/// Second stage of parsing: takes the host and the separators after it off
/// the input.
pub fn host_parser(input: &str) -> (r: Result<(String, String), ParseError>)
    ensures
        match r {
            Ok((rest, host)) => spec_host(input@) == Some((rest@, host@)),
            Err(e) => e == ParseError::Host && spec_host(input@).is_none(),
        },
{
    let chars = to_chars(input);
    let stops: Vec<char> = vec![':', '/'];
    assert(stops@ =~= path_seps());
    assert(chars@.skip(0) =~= chars@);
    match scan_field(&chars, 0, &stops) {
        Some((end, next)) => Ok(
            (from_chars(&chars, next, chars.len()), from_chars(&chars, 0, end)),
        ),
        None => Err(ParseError::Host),
    }
}

/// Third stage of parsing: takes the owner and the separators after it off
/// the input.
pub fn user_parser(input: &str) -> (r: Result<(String, String), ParseError>)
    ensures
        match r {
            Ok((rest, owner)) => spec_owner(input@) == Some((rest@, owner@)),
            Err(e) => e == ParseError::Owner && spec_owner(input@).is_none(),
        },
{
    let chars = to_chars(input);
    let stops: Vec<char> = vec!['/'];
    assert(stops@ =~= slash());
    assert(chars@.skip(0) =~= chars@);
    match scan_field(&chars, 0, &stops) {
        Some((end, next)) => Ok(
            (from_chars(&chars, next, chars.len()), from_chars(&chars, 0, end)),
        ),
        None => Err(ParseError::Owner),
    }
}

/// Fourth stage of parsing: takes the repository name off the input and
/// leaves the `.git` that ends it.
pub fn repo_parser(input: &str) -> (r: Result<(String, String), ParseError>)
    ensures
        match r {
            Ok((rest, repo)) => spec_repo(input@) == Some((rest@, repo@)),
            Err(e) => e == ParseError::Repo && spec_repo(input@).is_none(),
        },
{
    let chars = to_chars(input);
    assert(chars@.skip(0) =~= chars@);
    match scan_repo(&chars, 0) {
        Some(end) => Ok((from_chars(&chars, end, chars.len()), from_chars(&chars, 0, end))),
        None => Err(ParseError::Repo),
    }
}

impl Remote {
    /// Parses a remote URL, telling which stage rejected it if one did.
    pub fn try_parse(url_str: &str) -> (r: Result<Remote, ParseError>)
        ensures
            match r {
                Ok(remote) => spec_parse(url_str@) == Ok::<RemoteView, ParseError>(remote@)
                    && well_formed(remote@),
                Err(e) => spec_parse(url_str@) == Err::<RemoteView, ParseError>(e),
            },
    {
        let chars = to_chars(url_str);
        let (host_start, schema) = match scan_scheme(&chars) {
            Some(found) => found,
            None => {
                return Err(ParseError::Scheme);
            },
        };
        let host_stops: Vec<char> = vec![':', '/'];
        assert(host_stops@ =~= path_seps());
        let (host_end, user_start) = match scan_field(&chars, host_start, &host_stops) {
            Some(found) => found,
            None => {
                return Err(ParseError::Host);
            },
        };
        let user_stops: Vec<char> = vec!['/'];
        assert(user_stops@ =~= slash());
        let (user_end, repo_start) = match scan_field(&chars, user_start, &user_stops) {
            Some(found) => found,
            None => {
                return Err(ParseError::Owner);
            },
        };
        let repo_end = match scan_repo(&chars, repo_start) {
            Some(found) => found,
            None => {
                return Err(ParseError::Repo);
            },
        };
        let remote = Remote {
            schema,
            host: from_chars(&chars, host_start, host_end),
            user: from_chars(&chars, user_start, user_end),
            repo: from_chars(&chars, repo_start, repo_end),
        };
        proof {
            lemma_parse_well_formed(url_str@);
        }
        Ok(remote)
    }

    /// Parses a remote URL of either accepted shape; `None` when a stage
    /// does not find what it looks for.
    pub fn parse(url_str: &str) -> (r: Option<Remote>)
        ensures
            match r {
                Some(remote) => spec_parse(url_str@) == Ok::<RemoteView, ParseError>(remote@)
                    && well_formed(remote@),
                None => spec_parse(url_str@).is_err(),
            },
    {
        match Remote::try_parse(url_str) {
            Ok(remote) => Some(remote),
            Err(_) => None,
        }
    }
}

/// The web address of a repository. It is always an `https` address,
/// whatever scheme the remote URL had.
pub open spec fn repo_url(r: RemoteView) -> Seq<char> {
    "https://"@ + r.host + "/"@ + r.owner + "/"@ + r.repo
}

/// The web address of one commit of a repository.
pub open spec fn commit_url(r: RemoteView, commit: Seq<char>) -> Seq<char> {
    repo_url(r) + "/commit/"@ + commit
}

/// The web address of one branch of a repository.
pub open spec fn branch_url(r: RemoteView, branch: Seq<char>) -> Seq<char> {
    repo_url(r) + "/tree/"@ + branch
}

impl Remote {
    /// The scheme the URL started with.
    pub fn scheme(&self) -> (r: Scheme)
        ensures
            r == self@.scheme,
    {
        self.schema
    }

    /// The scheme word the URL started with.
    pub fn schema(&self) -> (r: &'static str)
        ensures
            r@ == scheme_word(self@.scheme),
    {
        match self.schema {
            Scheme::Git => "git",
            Scheme::Https => "https",
            Scheme::Http => "http",
        }
    }

    /// The host that serves the repository.
    pub fn host(&self) -> (r: &str)
        ensures
            r@ == self@.host,
    {
        self.host.as_str()
    }

    /// The owner of the repository.
    pub fn user(&self) -> (r: &str)
        ensures
            r@ == self@.owner,
    {
        self.user.as_str()
    }

    /// The name of the repository, without `.git`.
    pub fn repo(&self) -> (r: &str)
        ensures
            r@ == self@.repo,
    {
        self.repo.as_str()
    }

    pub fn is_git(&self) -> (r: bool)
        ensures
            r == (self@.scheme == Scheme::Git),
    {
        match self.schema {
            Scheme::Git => true,
            _ => false,
        }
    }

    pub fn is_http(&self) -> (r: bool)
        ensures
            r == (self@.scheme == Scheme::Http || self@.scheme == Scheme::Https),
    {
        match self.schema {
            Scheme::Http | Scheme::Https => true,
            Scheme::Git => false,
        }
    }

    /// The platform, told by the host alone: the two known hosts are matched
    /// exactly, letter case included.
    pub fn get_platform(&self) -> (r: Platform)
        ensures
            match r {
                Platform::Github => self@.host == "github.com"@,
                Platform::Gitlab => self@.host == "gitlab.com"@ && self@.host != "github.com"@,
                Platform::Other(host) => host@ == self@.host && self@.host != "github.com"@
                    && self@.host != "gitlab.com"@,
            },
    {
        if self.host == String::from_str("github.com") {
            Platform::Github
        } else if self.host == String::from_str("gitlab.com") {
            Platform::Gitlab
        } else {
            Platform::Other(self.host.clone())
        }
    }

    pub fn get_repo_url(&self) -> (r: String)
        ensures
            r@ == repo_url(self@),
    {
        let mut url = String::from_str("https://");
        url.append(self.host.as_str());
        url.append("/");
        url.append(self.user.as_str());
        url.append("/");
        url.append(self.repo.as_str());
        url
    }

    pub fn get_commit_url(&self, commit: &str) -> (r: String)
        ensures
            r@ == commit_url(self@, commit@),
    {
        let mut url = self.get_repo_url();
        url.append("/commit/");
        url.append(commit);
        url
    }

    pub fn get_branch_url(&self, branch: &str) -> (r: String)
        ensures
            r@ == branch_url(self@, branch@),
    {
        let mut url = self.get_repo_url();
        url.append("/tree/");
        url.append(branch);
        url
    }
}

/// A piece of a URL that holds none of the separators `@`, `:`, `/`.
pub open spec fn is_plain(s: Seq<char>) -> bool {
    &&& !s.contains('@')
    &&& !s.contains(':')
    &&& !s.contains('/')
}

/// `repo` followed by `.git` holds no `.git` before that last one.
pub open spec fn ends_at_suffix(repo: Seq<char>) -> bool {
    forall|j: int| 0 <= j < repo.len() ==> !occurs_at(repo + ".git"@, ".git"@, j)
}

/// A field, the separators that end it, and a rest that starts with no
/// separator: the stage gives back the field and the rest.
proof fn lemma_stage_field(field: Seq<char>, seps: Seq<char>, rest: Seq<char>, stops: Seq<char>)
    requires
        forall|j: int| 0 <= j < field.len() ==> !stops.contains(#[trigger] field[j]),
        seps.len() > 0,
        stops.contains(seps[0]),
        forall|j: int| 0 <= j < seps.len() ==> path_seps().contains(#[trigger] seps[j]),
        rest.len() > 0 ==> !path_seps().contains(rest[0]),
    ensures
        spec_field(field + (seps + rest), stops) == Some((rest, field)),
{
    lemma_span_concat(field, seps + rest, stops, false);
    lemma_span_concat(seps, rest, path_seps(), true);
}

/// The scheme word, the separators after it, and a rest that starts with
/// no separator: the stage gives back the rest.
proof fn lemma_stage_scheme(scheme: Scheme, seps: Seq<char>, rest: Seq<char>)
    requires
        leading_scheme(scheme_word(scheme) + (seps + rest)) == Some(scheme),
        forall|j: int| 0 <= j < seps.len() ==> scheme_seps().contains(#[trigger] seps[j]),
        rest.len() > 0 ==> !scheme_seps().contains(rest[0]),
    ensures
        spec_scheme(scheme_word(scheme) + (seps + rest)) == Some((rest, scheme)),
{
    let word = scheme_word(scheme);
    assert((word + (seps + rest)).skip(word.len() as int) =~= seps + rest);
    lemma_span_concat(seps, rest, scheme_seps(), true);
}

/// A name that holds no earlier `.git`, then `.git`: the stage gives back
/// the name.
proof fn lemma_stage_repo(repo: Seq<char>)
    requires
        ends_at_suffix(repo),
    ensures
        spec_repo(repo + ".git"@).is_some(),
        spec_repo(repo + ".git"@).unwrap().1 == repo,
{
    let s = repo + ".git"@;
    assert(s.subrange(repo.len() as int, (repo.len() + ".git"@.len()) as int) =~= ".git"@);
    lemma_find_first(s, ".git"@, repo.len() as int);
    assert(s.take(repo.len() as int) =~= repo);
}

/// A URL made of a scheme word, separators, and three plain fields parses
/// into exactly those fields.
proof fn lemma_parse_shape(
    scheme: Scheme,
    seps: Seq<char>,
    host_sep: char,
    host: Seq<char>,
    owner: Seq<char>,
    repo: Seq<char>,
)
    requires
        host.len() > 0,
        owner.len() > 0,
        is_plain(host),
        is_plain(owner),
        is_plain(repo),
        ends_at_suffix(repo),
        host_sep == ':' || host_sep == '/',
        forall|j: int| 0 <= j < seps.len() ==> scheme_seps().contains(#[trigger] seps[j]),
        leading_scheme(
            scheme_word(scheme) + (seps + (host + (seq![host_sep] + (owner + (seq!['/'] + (repo
                + ".git"@)))))),
        ) == Some(scheme),
    ensures
        spec_parse(
            scheme_word(scheme) + (seps + (host + (seq![host_sep] + (owner + (seq!['/'] + (repo
                + ".git"@)))))),
        ) == Ok::<RemoteView, ParseError>(RemoteView { scheme, host, owner, repo }),
{
    let tail = repo + ".git"@;
    let after_owner = seq!['/'] + tail;
    let after_host = owner + after_owner;
    let after_scheme = host + (seq![host_sep] + after_host);
    assert(scheme_seps() =~= seq!['@', ':', '/']);
    assert(path_seps()[0] == ':' && path_seps()[1] == '/');
    assert(slash()[0] == '/');
    assert(scheme_seps()[0] == '@' && scheme_seps()[1] == ':' && scheme_seps()[2] == '/');
    assert(!scheme_seps().contains(host[0]));
    assert(!path_seps().contains(owner[0]));
    assert(tail.len() > 0 && !path_seps().contains(tail[0])) by {
        reveal_strlit(".git");
        if repo.len() > 0 {
            assert(tail[0] == repo[0]);
        } else {
            assert(tail[0] == ".git"@[0]);
        }
    }
    lemma_stage_scheme(scheme, seps, after_scheme);
    assert(path_seps().contains(seq![host_sep][0]));
    lemma_stage_field(host, seq![host_sep], after_host, path_seps());
    assert(slash().contains(seq!['/'][0]));
    assert(path_seps().contains(seq!['/'][0]));
    lemma_stage_field(owner, seq!['/'], tail, slash());
    lemma_stage_repo(repo);
}

/// Every URL of the form `git@H:O/R.git` parses into scheme `git`, host
/// `H`, owner `O` and repository `R`, provided that `H` and `O` are not
/// empty, that none of the three holds `@`, `:` or `/`, and that `R.git`
/// holds no `.git` before its end.
pub proof fn law_parse_ssh(host: Seq<char>, owner: Seq<char>, repo: Seq<char>)
    requires
        host.len() > 0,
        owner.len() > 0,
        is_plain(host),
        is_plain(owner),
        is_plain(repo),
        ends_at_suffix(repo),
    ensures
        spec_parse("git@"@ + host + ":"@ + owner + "/"@ + repo + ".git"@) == Ok::<
            RemoteView,
            ParseError,
        >(RemoteView { scheme: Scheme::Git, host, owner, repo }),
{
    reveal_strlit("git@");
    reveal_strlit("git");
    reveal_strlit(":");
    reveal_strlit("/");
    let url = "git@"@ + host + ":"@ + owner + "/"@ + repo + ".git"@;
    let shaped = "git"@ + (seq!['@'] + (host + (seq![':'] + (owner + (seq!['/'] + (repo
        + ".git"@))))));
    assert(url =~= shaped);
    assert(shaped.subrange(0, 3) =~= "git"@);
    assert(scheme_seps()[0] == '@');
    lemma_parse_shape(Scheme::Git, seq!['@'], ':', host, owner, repo);
}

/// Every URL of the form `https://H/O/R.git` parses into scheme `https`,
/// host `H`, owner `O` and repository `R`, under the same provisions as for
/// the `git@` form.
pub proof fn law_parse_https(host: Seq<char>, owner: Seq<char>, repo: Seq<char>)
    requires
        host.len() > 0,
        owner.len() > 0,
        is_plain(host),
        is_plain(owner),
        is_plain(repo),
        ends_at_suffix(repo),
    ensures
        spec_parse("https://"@ + host + "/"@ + owner + "/"@ + repo + ".git"@) == Ok::<
            RemoteView,
            ParseError,
        >(RemoteView { scheme: Scheme::Https, host, owner, repo }),
{
    reveal_strlit("https://");
    reveal_strlit("https");
    reveal_strlit("git");
    reveal_strlit("/");
    let url = "https://"@ + host + "/"@ + owner + "/"@ + repo + ".git"@;
    let shaped = "https"@ + (seq![':', '/', '/'] + (host + (seq!['/'] + (owner + (seq!['/'] + (
    repo + ".git"@))))));
    assert(url =~= shaped);
    assert(shaped.subrange(0, 5) =~= "https"@);
    assert(shaped.subrange(0, 3)[0] == 'h');
    assert(scheme_seps()[1] == ':' && scheme_seps()[2] == '/');
    lemma_parse_shape(Scheme::Https, seq![':', '/', '/'], '/', host, owner, repo);
}

/// Every URL of the form `http://H/O/R.git` parses into scheme `http`,
/// host `H`, owner `O` and repository `R`, under the same provisions as for
/// the `git@` form.
pub proof fn law_parse_http(host: Seq<char>, owner: Seq<char>, repo: Seq<char>)
    requires
        host.len() > 0,
        owner.len() > 0,
        is_plain(host),
        is_plain(owner),
        is_plain(repo),
        ends_at_suffix(repo),
    ensures
        spec_parse("http://"@ + host + "/"@ + owner + "/"@ + repo + ".git"@) == Ok::<
            RemoteView,
            ParseError,
        >(RemoteView { scheme: Scheme::Http, host, owner, repo }),
{
    reveal_strlit("http://");
    reveal_strlit("https");
    reveal_strlit("http");
    reveal_strlit("git");
    reveal_strlit("/");
    let url = "http://"@ + host + "/"@ + owner + "/"@ + repo + ".git"@;
    let shaped = "http"@ + (seq![':', '/', '/'] + (host + (seq!['/'] + (owner + (seq!['/'] + (repo
        + ".git"@))))));
    assert(url =~= shaped);
    assert(shaped.subrange(0, 4) =~= "http"@);
    assert(shaped.subrange(0, 3)[0] == 'h');
    assert(shaped.subrange(0, 5)[4] == ':');
    assert(scheme_seps()[1] == ':' && scheme_seps()[2] == '/');
    lemma_parse_shape(Scheme::Http, seq![':', '/', '/'], '/', host, owner, repo);
}

/// A repository name that holds no `.git` at all ends at the suffix that
/// is put behind it: the dot of `.git` occurs nowhere else in that suffix, so
/// no earlier occurrence can reach into it.
pub proof fn lemma_plain_name_ends_at_suffix(repo: Seq<char>)
    requires
        find(repo, ".git"@).is_none(),
    ensures
        ends_at_suffix(repo),
{
    reveal_strlit(".git");
    let s = repo + ".git"@;
    assert forall|j: int| 0 <= j < repo.len() implies !occurs_at(s, ".git"@, j) by {
        if occurs_at(s, ".git"@, j) {
            let w = s.subrange(j, j + 4);
            assert(w == ".git"@);
            if j + 4 <= repo.len() {
                assert(repo.subrange(j, j + 4) =~= w);
                assert(occurs_at(repo, ".git"@, j));
                lemma_find_none_absent(repo, ".git"@, j);
            } else {
                // the window reaches into the suffix, whose first character
                // is the only dot in it
                let k = repo.len() - j;
                assert(1 <= k <= 3);
                assert(w[k] == s[repo.len() as int]);
                assert(s[repo.len() as int] == ".git"@[0]);
                assert(w[k] == ".git"@[k]);
            }
        }
    }
}

/// The web address of a repository, with `.git` behind it, parses back
/// into the same host, owner and repository, under the scheme `https`:
/// for every well-formed address whose host and owner are not empty and
/// whose three fields hold none of `@`, `:`, `/`.
pub proof fn law_web_address_parses_back(r: RemoteView)
    requires
        well_formed(r),
        r.host.len() > 0,
        r.owner.len() > 0,
        is_plain(r.host),
        is_plain(r.owner),
        is_plain(r.repo),
    ensures
        spec_parse(repo_url(r) + ".git"@) == Ok::<RemoteView, ParseError>(
            RemoteView { scheme: Scheme::Https, host: r.host, owner: r.owner, repo: r.repo },
        ),
{
    lemma_plain_name_ends_at_suffix(r.repo);
    law_parse_https(r.host, r.owner, r.repo);
}

} // verus!
